use agentbridge::discord::DiscordReplyCtx;
use agentbridge::feishu::{
    build_card, card_message, card_update, chat_id_of, message_id_in, message_to_react_to,
    parse_message_id, parse_reaction_id, reaction_body, reaction_id_in, send_error,
    strip_mention_tokens, succeeded, Domain, FeishuOptions, FeishuPlatform, FeishuPreviewHandle,
    FeishuReplyCtx, StreamBackoff, WORKING_EMOJI,
};
use agentbridge::platform::{
    AnyCtx, AnyHandle, Platform, PlatformCapabilities, PreviewHandle, ReplyCtx,
};
use serde_json::Value;

fn json(text: &str) -> Value {
    serde_json::from_str(text).unwrap()
}

#[test]
fn strip_mentions_removes_at_tokens() {
    assert_eq!(strip_mention_tokens("@_user_1 hello world"), "hello world");
    assert_eq!(strip_mention_tokens("no mention here"), "no mention here");
    assert_eq!(strip_mention_tokens("@_all 大家好"), "大家好");
}

#[test]
fn build_card_wraps_markdown() {
    let card = build_card("**hi**\n| a | b |\n|---|---|\n| 1 | 2 |");
    assert_eq!(card["schema"], "2.0");
    let el = &card["body"]["elements"][0];
    assert_eq!(el["tag"], "markdown");
    assert!(el["content"].as_str().unwrap().contains("| a | b |"));
}

#[test]
fn parse_message_id_from_body() {
    let body = br#"{"code":0,"data":{"message_id":"om_abc123"},"msg":"success"}"#;
    assert_eq!(parse_message_id(body).as_deref(), Some("om_abc123"));
}

#[test]
fn parse_message_id_missing() {
    assert_eq!(parse_message_id(b"{\"code\":0}"), None);
    assert_eq!(parse_message_id(b"not json"), None);
}

#[test]
fn session_key_uses_chat_id() {
    let ctx = FeishuReplyCtx { chat_id: "oc_abc".into(), message_id: Some("om_1".into()) };
    assert_eq!(ctx.session_key_hint(), "feishu:oc_abc");
}

#[test]
fn clone_box_preserves_type() {
    let ctx = FeishuReplyCtx { chat_id: "oc_xyz".into(), message_id: None };
    let boxed = ctx.clone_box();
    match boxed.as_any() {
        AnyCtx::Feishu(down) => assert_eq!(down.chat_id, "oc_xyz"),
        _ => panic!("expected a Feishu context"),
    }
}

#[test]
fn preview_handle_downcast() {
    let h = FeishuPreviewHandle { message_id: "om_9".into() };
    match h.as_any() {
        AnyHandle::Feishu(down) => assert_eq!(down.message_id, "om_9"),
        _ => panic!("expected a Feishu handle"),
    }
}

fn platform(allow_from: Option<&str>, domain: Option<&str>, reply_all: bool) -> FeishuPlatform {
    FeishuPlatform::new(FeishuOptions {
        app_id: "app".to_string(),
        app_secret: "secret".to_string(),
        domain: domain.map(|d| d.to_string()),
        allow_from: allow_from.map(|a| a.to_string()),
        group_reply_all: reply_all,
    })
}

#[test]
fn platforms_by_domain() {
    assert_eq!(platform(None, None, true).domain(), Domain::Feishu);
    assert_eq!(platform(None, Some("lark"), true).domain(), Domain::Lark);
    assert_eq!(platform(None, Some("other"), true).domain(), Domain::Feishu);
    let p = platform(None, None, true);
    assert_eq!(p.name(), "feishu");
    assert_eq!(p.app_id(), "app");
    assert_eq!(p.app_secret(), "secret");
    assert!(p.renders_markdown());
    assert!(p.as_message_updater());
    assert!(p.as_typing_indicator());
    assert!(!p.as_inline_button_sender());
    assert!(!p.as_image_sender());
    assert!(!p.as_file_sender());
}

fn event(chat_type: &str, text: &str, mentions: &str) -> Value {
    let content = format!(r#"{{\"text\":\"{}\"}}"#, text);
    json(&format!(
        r#"{{"sender":{{"sender_id":{{"open_id":"ou_1"}}}},"message":{{"chat_id":"oc_1",
            "message_id":"om_1","chat_type":"{}","message_type":"text","content":"{}",
            "mentions":{}}}}}"#,
        chat_type, content, mentions
    ))
}

#[test]
fn events_become_messages() {
    let msg = platform(None, None, true)
        .parse_incoming(&event("group", "@_user_1 hi  there", "[]"))
        .unwrap();
    assert_eq!(msg.text, "hi there");
    assert_eq!(msg.from, "ou_1");
    assert_eq!(msg.id, "om_1");
    assert!(msg.is_group);
    assert_eq!(msg.channel_id.as_deref(), Some("oc_1"));
    assert_eq!(msg.reply_ctx.session_key_hint(), "feishu:oc_1");
}

#[test]
fn groups_need_a_mention() {
    let p = platform(None, None, false);
    assert!(p.parse_incoming(&event("group", "hi", "[]")).is_none());
    assert!(p.parse_incoming(&event("group", "hi", r#"[{"key":"@_user_1"}]"#)).is_some());
    assert!(p.parse_incoming(&event("p2p", "hi", "[]")).is_some());
}

#[test]
fn strangers_and_other_kinds_are_passed_over() {
    let p = platform(Some("ou_2, ou_1"), None, true);
    assert!(p.parse_incoming(&event("p2p", "hi", "[]")).is_some());
    let p = platform(Some("ou_2"), None, true);
    assert!(p.parse_incoming(&event("p2p", "hi", "[]")).is_none());
    let p = platform(Some(" * "), None, true);
    assert!(p.parse_incoming(&event("p2p", "hi", "[]")).is_some());
    let p = platform(Some(""), None, true);
    assert!(p.parse_incoming(&event("p2p", "hi", "[]")).is_some());
    assert!(p.parse_incoming(&event("p2p", "@_all", "[]")).is_none());
    let image = json(r#"{"message":{"chat_id":"c","message_type":"image"}}"#);
    assert!(p.parse_incoming(&image).is_none());
    assert!(p.parse_incoming(&json("{}")).is_none());
    // The contents may have been read before.
    let read = json(r#"{"text":"from elsewhere"}"#);
    let msg = p.parse_message(&event("p2p", "hi", "[]"), Some(&read)).unwrap();
    assert_eq!(msg.text, "from elsewhere");
}

#[test]
fn cards_are_json_in_json() {
    let body = card_message("oc_1", "**x**");
    assert_eq!(body["receive_id"], "oc_1");
    assert_eq!(body["msg_type"], "interactive");
    let card = json(body["content"].as_str().unwrap());
    assert_eq!(card, build_card("**x**"));
    assert_eq!(card["config"]["wide_screen_mode"], true);
    assert_eq!(card_update("y")["content"], build_card("y").to_string());
    assert_eq!(
        reaction_body(WORKING_EMOJI),
        json(r#"{"reaction_type":{"emoji_type":"OnIt"}}"#)
    );
}

#[test]
fn responses_are_read() {
    let body = br#"{"code":0,"data":{"reaction_id":"r1"}}"#;
    assert_eq!(parse_reaction_id(body), Ok("r1".to_string()));
    assert_eq!(
        parse_reaction_id(b"{}"),
        Err("feishu reaction: no reaction_id".to_string())
    );
    let v = json(r#"{"data":{"message_id":"m","reaction_id":7}}"#);
    assert_eq!(message_id_in(&v).as_deref(), Some("m"));
    assert_eq!(reaction_id_in(&v), None);
    assert!(succeeded(r#"{"code":0,"x":1}"#));
    assert!(!succeeded(r#"{"code":230001}"#));
    assert_eq!(send_error("body"), "feishu send failed: body");
}

#[test]
fn contexts_of_other_platforms_are_refused() {
    let own = FeishuReplyCtx { chat_id: "oc".into(), message_id: Some("om".into()) };
    assert_eq!(chat_id_of(&own), Ok("oc".to_string()));
    assert_eq!(message_to_react_to(&own), Ok("om".to_string()));
    let silent = FeishuReplyCtx { chat_id: "oc".into(), message_id: None };
    assert!(message_to_react_to(&silent).is_err());
    let other =
        DiscordReplyCtx { channel_id: "c".into(), message_id: None, thread_id: None };
    assert_eq!(
        chat_id_of(&other),
        Err("feishu: reply ctx is not a FeishuReplyCtx".to_string())
    );
    assert_eq!(
        message_to_react_to(&other),
        Err("feishu: no message_id to react to".to_string())
    );
}

#[test]
fn streams_come_back_slower() {
    let mut b = StreamBackoff::new();
    assert_eq!([b.failed(), b.failed(), b.failed(), b.failed(), b.failed()], [5, 10, 20, 40, 60]);
    assert_eq!(b.ended(false), 60);
    assert_eq!(b.ended(true), 5);
    assert_eq!(b.ended(false), 10);
}
