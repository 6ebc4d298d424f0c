use agentbridge::discord::DiscordReplyCtx;
use agentbridge::feishu::FeishuPreviewHandle;
use agentbridge::message::ImageAttachment;
use agentbridge::platform::{
    AnyCtx, AnyHandle, Button, Platform, PlatformCapabilities, PreviewHandle, ReplyCtx,
};
use agentbridge::telegram::{
    callback_params, delete_params, edit_params, file_name, file_params, file_path_in,
    keyboard_params, next_offset, parse_callback_query, parse_incoming_message, read_update,
    reply_params, sent_handle, split_message, typing_params, updates_params, voice_file_name,
    wanted_files, PollBackoff, TelegramOptions, TelegramPlatform, TelegramPreviewHandle,
    TelegramReplyCtx, Update,
};
use serde_json::Value;

fn json(text: &str) -> Value {
    serde_json::from_str(text).unwrap()
}

#[test]
fn test_split_message_short() {
    let chunks = split_message("hello", 4096);
    assert_eq!(chunks, vec!["hello"]);
}

#[test]
fn test_split_message_exact() {
    let text = "a".repeat(4096);
    let chunks = split_message(&text, 4096);
    assert_eq!(chunks.len(), 1);
}

#[test]
fn test_split_message_long() {
    let text = "a".repeat(5000);
    let chunks = split_message(&text, 4096);
    assert_eq!(chunks.len(), 2);
    assert_eq!(chunks[0].len(), 4096);
    assert_eq!(chunks[1].len(), 904);
}

#[test]
fn test_split_message_at_newline() {
    let mut text = "a".repeat(4000);
    text.push('\n');
    text.push_str(&"b".repeat(200));
    let chunks = split_message(&text, 4096);
    assert_eq!(chunks.len(), 2);
    assert!(chunks[0].ends_with('\n'));
}

#[test]
fn split_messages_keep_characters_whole() {
    let text = "字".repeat(5000);
    let chunks = split_message(&text, 4096);
    assert_eq!(chunks.len(), 2);
    assert_eq!(chunks[0].chars().count(), 4096);
    assert_eq!(chunks.concat(), text);
    assert_eq!(split_message("你好", 4), vec!["你好"]);
}

#[test]
fn test_reply_ctx_session_key() {
    let ctx = TelegramReplyCtx { chat_id: 12345, thread_id: None, message_id: Some(1) };
    assert_eq!(ctx.session_key_hint(), "telegram:12345");
}

#[test]
fn test_reply_ctx_clone_box() {
    let ctx = TelegramReplyCtx { chat_id: 42, thread_id: Some(7), message_id: Some(99) };
    let cloned = ctx.clone_box();
    assert_eq!(cloned.session_key_hint(), "telegram:42");

    // Verify the concrete type survived the clone.
    match cloned.as_any() {
        AnyCtx::Telegram(concrete) => assert_eq!(concrete.thread_id, Some(7)),
        _ => panic!("expected a Telegram context"),
    }
}

#[test]
fn test_preview_handle_downcast() {
    let handle = TelegramPreviewHandle { chat_id: 100, message_id: 200 };
    match handle.as_any() {
        AnyHandle::Telegram(concrete) => {
            assert_eq!(concrete.chat_id, 100);
            assert_eq!(concrete.message_id, 200);
        }
        _ => panic!("expected a Telegram handle"),
    }
}

#[test]
fn test_parse_callback_query() {
    let update = json(
        r#"{"update_id": 1, "callback_query": {"id": "cb123", "from": { "id": 42 }, "data": "approve",
            "message": {"chat": { "id": 100 }, "message_id": 55}}}"#,
    );
    let cb = parse_callback_query(&update).unwrap();
    assert_eq!(cb.id, "cb123");
    assert_eq!(cb.from, "42");
    assert_eq!(cb.data, "approve");
    assert_eq!(cb.reply_ctx.chat_id, 100);
    assert_eq!(cb.reply_ctx.message_id, Some(55));
}

#[test]
fn test_parse_callback_query_missing() {
    let update = json(r#"{"update_id": 1, "message": { "text": "hello" }}"#);
    assert!(parse_callback_query(&update).is_none());
}

fn platform(allow_from: Option<&str>) -> TelegramPlatform {
    TelegramPlatform::new(TelegramOptions {
        token: "t".into(),
        allow_from: allow_from.map(|a| a.to_string()),
    })
}

#[test]
fn test_allow_from_wildcard() {
    let platform = platform(Some("*"));
    assert!(platform.allow_from.is_none());
}

#[test]
fn test_allow_from_list() {
    let platform = platform(Some("100, 200, 300"));
    let set = platform.allow_from.unwrap();
    assert!(set.contains(&"100".to_string()));
    assert!(set.contains(&"200".to_string()));
    assert!(set.contains(&"300".to_string()));
    assert_eq!(set.len(), 3);
}

#[test]
fn platforms_and_their_addresses() {
    let p = platform(None);
    assert_eq!(p.name(), "telegram");
    assert!(!p.renders_markdown());
    assert!(p.as_message_updater() && p.as_image_sender() && p.as_inline_button_sender());
    assert!(p.as_typing_indicator() && !p.as_file_sender());
    assert_eq!(p.method_url("getFile"), "https://api.telegram.org/bott/getFile");
    assert_eq!(p.file_url("a/b.jpg"), "https://api.telegram.org/file/bott/a/b.jpg");
}

#[test]
fn foreign_contexts_and_handles_are_refused() {
    let other = DiscordReplyCtx { channel_id: "c".into(), message_id: None, thread_id: None };
    assert_eq!(
        TelegramPlatform::downcast_ctx(&other).err(),
        Some("telegram: ReplyCtx is not a TelegramReplyCtx".to_string())
    );
    let handle = FeishuPreviewHandle { message_id: "m".into() };
    assert_eq!(
        TelegramPlatform::downcast_handle(&handle).err(),
        Some("telegram: PreviewHandle is not a TelegramPreviewHandle".to_string())
    );
    let own = TelegramPreviewHandle { chat_id: 1, message_id: 2 };
    assert_eq!(TelegramPlatform::downcast_handle(&own).unwrap().message_id, 2);
    assert_eq!(TelegramPlatform::downcast_ctx(&ctx()).unwrap().chat_id, -5);
}

fn ctx() -> TelegramReplyCtx {
    TelegramReplyCtx { chat_id: -5, thread_id: Some(3), message_id: None }
}

#[test]
fn parameters_of_the_calls() {
    let params = reply_params(&ctx(), &"x".repeat(5000));
    assert_eq!(params.len(), 2);
    assert_eq!(
        params[1],
        json(&format!(
            r#"{{"chat_id":-5,"text":"{}","parse_mode":"HTML","message_thread_id":3}}"#,
            "x".repeat(904)
        ))
    );
    let plain = TelegramReplyCtx { thread_id: None, ..ctx() };
    assert!(reply_params(&plain, "a")[0].get("message_thread_id").is_none());
    let handle = sent_handle(-5, &json(r#"{"result":{"message_id":9}}"#));
    assert_eq!((handle.chat_id, handle.message_id), (-5, 9));
    assert_eq!(sent_handle(1, &json("{}")).message_id, 0);
    assert_eq!(
        edit_params(&handle, "n"),
        json(r#"{"chat_id":-5,"message_id":9,"text":"n","parse_mode":"HTML"}"#)
    );
    assert_eq!(delete_params(&handle), json(r#"{"chat_id":-5,"message_id":9}"#));
    let buttons = vec![Button { text: "A".to_string(), callback_data: "a".to_string() }];
    assert_eq!(
        keyboard_params(&plain, "ask", &buttons),
        json(
            r#"{"chat_id":-5,"text":"ask","reply_markup":{"inline_keyboard":[[{"text":"A","callback_data":"a"}]]}}"#
        )
    );
    assert_eq!(callback_params("c", "t"), json(r#"{"callback_query_id":"c","text":"t"}"#));
    assert_eq!(typing_params(4), json(r#"{"chat_id":4,"action":"typing"}"#));
    assert_eq!(
        updates_params(7),
        json(r#"{"offset":7,"timeout":30,"allowed_updates":["message","edited_message","callback_query"]}"#)
    );
}

#[test]
fn offsets_follow_the_updates() {
    assert_eq!(next_offset(3, &json(r#"{"update_id":10}"#)), 11);
    assert_eq!(next_offset(3, &json("{}")), 3);
}

fn update(message: &str) -> Value {
    json(&format!(r#"{{"update_id":1,"message":{}}}"#, message))
}

#[test]
fn updates_become_messages() {
    let u = update(
        r#"{"message_id":5,"from":{"id":42,"first_name":"Ann"},"chat":{"id":-7,"type":"group","title":"T"},"message_thread_id":2,"text":"hi"}"#,
    );
    let msg = parse_incoming_message(&u, &None, vec![], None).unwrap();
    assert_eq!(msg.id, "5");
    assert_eq!(msg.from, "42");
    assert_eq!(msg.from_name.as_deref(), Some("Ann"));
    assert_eq!(msg.text, "hi");
    assert!(msg.is_group);
    assert_eq!(msg.channel_id.as_deref(), Some("-7"));
    assert_eq!(msg.channel_name.as_deref(), Some("T"));
    match msg.reply_ctx.as_any() {
        AnyCtx::Telegram(c) => assert_eq!(*c, TelegramReplyCtx {
            chat_id: -7,
            thread_id: Some(2),
            message_id: Some(5),
        }),
        _ => panic!("expected a Telegram context"),
    }
    assert!(parse_incoming_message(&u, &Some(vec!["1".to_string()]), vec![], None).is_none());
    let edited = json(r#"{"edited_message":{"text":"again","chat":{"id":1}}}"#);
    let msg = parse_incoming_message(&edited, &None, vec![], None).unwrap();
    assert_eq!(msg.text, "again");
    assert!(!msg.is_group);
}

#[test]
fn photos_and_recordings_are_fetched() {
    let u = update(
        r#"{"from":{"id":1},"caption":"look","photo":[{"file_id":"small"},{"file_id":"large"}],"voice":{"file_id":"v1"}}"#,
    );
    let wanted = wanted_files(&u, &None).unwrap();
    assert_eq!(wanted.photo.as_deref(), Some("large"));
    assert_eq!(wanted.voice.as_deref(), Some("v1"));
    assert!(wanted_files(&u, &Some(vec![])).is_none());
    assert!(wanted_files(&json("{}"), &None).is_none());
    let image = ImageAttachment {
        data: vec![1, 2],
        mime_type: "image/jpeg".to_string(),
        filename: "p.jpg".to_string(),
    };
    let msg =
        parse_incoming_message(&u, &None, vec![image], Some("/tmp/v.ogg".to_string())).unwrap();
    assert_eq!(msg.text, "look");
    assert_eq!(msg.images[0].filename, "p.jpg");
    assert_eq!(msg.voice.as_deref(), Some("/tmp/v.ogg"));
    // A photo that could not be fetched still makes a message; nothing at all
    // does not.
    let silent = update(r#"{"photo":[{"file_id":"x"}]}"#);
    assert!(parse_incoming_message(&silent, &None, vec![], None).is_some());
    assert!(parse_incoming_message(&update("{}"), &None, vec![], None).is_none());
}

#[test]
fn files_are_named() {
    assert_eq!(
        file_path_in(&json(r#"{"result":{"file_path":"voice/f.oga"}}"#)),
        Ok("voice/f.oga".to_string())
    );
    assert_eq!(file_path_in(&json("{}")), Err("getFile returned no file_path".to_string()));
    assert_eq!(file_name("photos/file_1.jpg"), "file_1.jpg");
    assert_eq!(file_name("plain"), "plain");
    assert_eq!(file_name("dir/"), "");
    assert_eq!(voice_file_name("id", 1700000000, "voice/f.oga"), "id_1700000000.oga");
    assert_eq!(voice_file_name("id", 0, "noext"), "id_0.noext");
}

#[test]
fn polls_slow_down() {
    let mut b = PollBackoff::new();
    assert_eq!([b.failed(), b.failed(), b.failed()], [1, 2, 4]);
    b.answered();
    assert_eq!(b.failed(), 1);
    for _ in 0..10 {
        b.failed();
    }
    assert_eq!(b.failed(), 60);
}

#[test]
fn an_update_brings_a_click_or_a_message() {
    let click = r#"{"callback_query":{"id":"c1","from":{"id":7}},"message":{"text":"x"}}"#;
    match read_update(&json(click), &None) {
        Update::Click(e) => assert_eq!((e.id.as_str(), e.from.as_str()), ("c1", "7")),
        _ => panic!("a click comes first"),
    }
    let message = update(r#"{"from":{"id":1},"voice":{"file_id":"v1"}}"#);
    match read_update(&message, &None) {
        Update::Message(w) => assert_eq!(w.voice.as_deref(), Some("v1")),
        _ => panic!("a message"),
    }
    assert!(matches!(read_update(&message, &Some(vec![])), Update::Nothing));
    assert!(matches!(read_update(&json("{}"), &None), Update::Nothing));
    assert_eq!(file_params("f1"), json(r#"{"file_id":"f1"}"#));
}
