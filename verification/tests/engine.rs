use agentbridge::clock::Timestamp;
use agentbridge::config::{
    AcpConfig, AgentConfig, AgentEntry, AliasConfig, AutoCompress, CommandConfig, DisplayConfig,
    ProjectConfig, TmuxConfig,
};
use agentbridge::control::{
    channel_name_in, channel_of_key, collect_all_commands, compress_reply, list_skills,
    parse_decision, parse_wish, permission_reminder, permission_reminder_buttons, unnamed_keys,
    PermissionAnswer, Skill,
};
use agentbridge::dispatch::{
    failure_reply, inject_reply, queue_reply, resets_agent, route_command, stop_reply,
    CommandRoute, Reception,
};
use agentbridge::engine::{Engine, EngineInteractiveState};
use agentbridge::intake::{Intake, IntakeAction, IntakeInput, IntakePhase};
use agentbridge::message::{ImageAttachment, IncomingMessage};
use agentbridge::platform::ReplyTarget;
use agentbridge::routing::{
    btw_text, build_prompt, contains_any, contains_banned_word, create_platform_capabilities,
    is_allowed,
    make_session_key, resolve_alias, split_command, PlatformKind,
};
use agentbridge::session::{SessionManager, MAX_QUEUED_MESSAGES};
use agentbridge::telegram::TelegramReplyCtx;
use agentbridge::turn::PermissionDecision;
use agentbridge::work::{Sent, TurnEnd, Work, WorkAction, WorkInput, WorkPhase};

fn ctx() -> ReplyTarget {
    ReplyTarget::Telegram(TelegramReplyCtx { chat_id: 1, thread_id: None, message_id: None })
}

fn message(text: &str) -> IncomingMessage {
    IncomingMessage {
        id: "1".to_string(),
        from: "u".to_string(),
        from_name: None,
        text: text.to_string(),
        images: vec![],
        files: vec![],
        voice: None,
        is_group: false,
        channel_id: None,
        channel_name: None,
        reply_ctx: ctx(),
    }
}

fn entry(name: &str, backend: &str) -> AgentEntry {
    AgentEntry {
        name: name.to_string(),
        backend: backend.to_string(),
        mode: "default".to_string(),
        model: None,
        acp: None,
        tmux: None,
    }
}

fn project() -> ProjectConfig {
    let mut kiro = entry("kiro", "acp");
    kiro.acp = Some(AcpConfig { command: "echo".to_string(), args: vec![] });
    ProjectConfig {
        name: "test-proj".to_string(),
        work_dir: "/tmp".to_string(),
        allow_from: "*".to_string(),
        banned_words: vec![],
        aliases: vec![],
        commands: vec![],
        display: DisplayConfig {
            verbose: true,
            thinking_messages: true,
            thinking_max_len: 300,
            tool_messages: true,
            tool_max_len: 500,
            context_indicator: false,
            context_window: 0,
        },
        agent: AgentConfig::default(),
        program: "coder".to_string(),
        agents: vec![entry("coder", "coder"), kiro],
        default_agent: "coder".to_string(),
        reset_on_idle_mins: 0,
        auto_compress: AutoCompress { enabled: false, max_tokens: 0 },
        sync_auto: None,
    }
}

fn engine() -> Engine {
    Engine::new(project(), SessionManager::new("coder".to_string()))
}

// ---------------------------------------------------------------------------
// Routing
// ---------------------------------------------------------------------------

#[test]
fn is_allowed_wildcard() {
    assert!(is_allowed("*", "anyone"));
}

#[test]
fn is_allowed_exact() {
    assert!(is_allowed("123,456", "123"));
    assert!(is_allowed("123,456", "456"));
    assert!(!is_allowed("123,456", "789"));
}

#[test]
fn is_allowed_trims() {
    assert!(is_allowed("123, 456", "456"));
}

#[test]
fn banned_word_match() {
    assert!(contains_banned_word("this is secret info", &vec!["secret".to_string()]));
}

#[test]
fn banned_word_case_insensitive() {
    assert!(contains_banned_word("TOP SECRET", &vec!["secret".to_string()]));
}

#[test]
fn banned_word_no_match() {
    assert!(!contains_banned_word("hello world", &vec!["secret".to_string()]));
}

#[test]
fn banned_word_empty_list() {
    assert!(!contains_banned_word("anything", &vec![]));
}

#[test]
fn build_prompt_text_only() {
    assert_eq!(build_prompt(&message("hello")), "hello");
}

#[test]
fn build_prompt_with_image() {
    let mut msg = message("describe this");
    msg.images = vec![ImageAttachment {
        data: vec![],
        mime_type: "image/png".to_string(),
        filename: "photo.png".to_string(),
    }];
    let prompt = build_prompt(&msg);
    assert!(prompt.contains("describe this"));
    assert!(prompt.contains("photo.png"));
}

#[test]
fn session_keys() {
    let mut msg = message("x");
    msg.channel_id = Some("c".to_string());
    assert_eq!(make_session_key("discord", &msg), "discord:u");
    msg.is_group = true;
    assert_eq!(make_session_key("discord", &msg), "discord:c");
    msg.channel_id = None;
    assert_eq!(make_session_key("discord", &msg), "discord:u");
}

#[test]
fn aliases_stand_for_commands() {
    let aliases = vec![AliasConfig { trigger: "帮助".to_string(), command: "/help".to_string() }];
    assert_eq!(resolve_alias(message("帮助"), &aliases).text, "/help");
    assert_eq!(resolve_alias(message("hello"), &aliases).text, "hello");
}

#[test]
fn commands_are_split() {
    assert_eq!(
        split_command("/model  coder 5 "),
        ("model".to_string(), "coder 5".to_string())
    );
    assert_eq!(btw_text(" /btw look here "), Some("look here".to_string()));
    assert_eq!(btw_text("/btw"), None);
    assert_eq!(btw_text("/btwx y"), None);
}

#[test]
fn platforms_by_name() {
    assert_eq!(create_platform_capabilities("lark"), Ok(PlatformKind::Feishu));
    assert_eq!(create_platform_capabilities("telegram"), Ok(PlatformKind::Telegram));
    assert_eq!(create_platform_capabilities("discord"), Ok(PlatformKind::Discord));
    assert_eq!(
        create_platform_capabilities("irc"),
        Err("Unknown platform type: irc".to_string())
    );
}

// ---------------------------------------------------------------------------
// Agents
// ---------------------------------------------------------------------------

#[test]
fn agent_command_lists_available() {
    let mut engine = engine();
    let (reply, switched) = engine.handle_agent_command("telegram:user1", "");
    assert!(reply.contains("Current agent: coder"));
    assert!(reply.contains("coder"));
    assert!(reply.contains("kiro"));
    assert!(reply.contains("(echo)"));
    assert!(!switched);
}

#[test]
fn agent_command_unknown_name_reports() {
    let (reply, _) = engine().handle_agent_command("telegram:user1", "nonexistent");
    assert!(reply.contains("Unknown agent"));
}

#[test]
fn agent_command_same_agent_reports_already() {
    let (reply, _) = engine().handle_agent_command("telegram:user1", "coder");
    assert!(reply.contains("Already"));
}

#[test]
fn agent_command_switches_and_creates_new_session() {
    let mut engine = engine();
    let (reply, switched) = engine.handle_agent_command("telegram:user1", "kiro");
    assert!(reply.contains("Switched to agent: kiro"));
    assert!(reply.contains("New session started"));
    assert!(switched);

    // active_agents should now reflect the switch.
    assert_eq!(engine.active_agents.get("telegram:user1").map(|s| s.as_str()), Some("kiro"));

    // A kiro-typed session should exist.
    let kiro_sessions = engine.sessions.list_for_agent("telegram:user1", "kiro");
    assert_eq!(kiro_sessions.len(), 1);
}

#[test]
fn agent_command_refuses_switch_when_busy() {
    let mut engine = engine();
    let session = engine.sessions.get_or_create("telegram:user1");
    // Lock the session to simulate an active turn.
    assert!(engine.sessions.try_lock_session(&session));
    engine
        .interactive_states
        .insert("telegram:user1".to_string(), EngineInteractiveState::new(session.share()));

    let (reply, switched) = engine.handle_agent_command("telegram:user1", "kiro");
    assert!(reply.contains("is busy"));
    assert!(!switched);

    // The choice should NOT have been written.
    assert!(engine.active_agents.get("telegram:user1").is_none());
}

#[test]
fn resolve_active_agent_falls_back_to_default() {
    assert_eq!(engine().resolve_active_agent("telegram:u"), "coder");
}

#[test]
fn resolve_active_agent_uses_override() {
    let mut engine = engine();
    engine.active_agents.insert("telegram:u".to_string(), "kiro".to_string());
    assert_eq!(engine.resolve_active_agent("telegram:u"), "kiro");
}

#[test]
fn engine_new_hydrates_active_agents_from_sessions() {
    let mut sessions = SessionManager::new("coder".to_string());
    sessions.new_session_with_agent("discord:alice", None, "kiro");
    sessions.new_session_with_agent("discord:bob", None, "coder");

    let engine = Engine::new(project(), sessions);
    assert_eq!(engine.active_agents.get("discord:alice").map(|s| s.as_str()), Some("kiro"));
    assert_eq!(engine.active_agents.get("discord:bob").map(|s| s.as_str()), Some("coder"));
}

#[test]
fn engine_new_skips_unknown_agents_when_hydrating() {
    let mut sessions = SessionManager::new("coder".to_string());
    sessions.new_session_with_agent("discord:alice", None, "long-gone-agent");

    let mut config = project();
    config.agents = vec![entry("coder", "coder")];
    let engine = Engine::new(config, sessions);
    assert!(engine.active_agents.get("discord:alice").is_none());
}

#[test]
fn agents_are_started_with_their_settings() {
    let mut engine = engine();
    engine.sessions.get_or_create("k");
    engine.sessions.set_work_dir("k", "/d");
    engine.sessions.set_agent_session_id("k", "a1");
    engine.model_override.insert("k".to_string(), "coder".to_string(), "big".to_string());
    let model = engine.effective_model("k", "coder");
    let mode = engine.effective_mode("k", "coder");
    assert_eq!(model.as_deref(), Some("big"));
    assert_eq!(mode, "default");
    let request = engine.start_request("k", true, model.as_deref(), "").unwrap();
    assert_eq!(request.entry.name, "coder");
    assert_eq!(request.resume.as_deref(), Some("a1"));
    assert_eq!(request.model, Some("big"));
    assert_eq!(request.mode, None);
    assert_eq!(request.work_dir.as_deref(), Some("/d"));
    let fresh = engine.start_request("k", false, None, "plan").unwrap();
    assert_eq!(fresh.resume, None);
    assert_eq!(fresh.mode, Some("plan"));
    engine.active_agents.insert("k".to_string(), "gone".to_string());
    assert_eq!(
        engine.start_request("k", true, None, "").err(),
        Some("unknown active agent: gone".to_string())
    );
}

#[test]
fn progress_is_in_place_with_hooks() {
    let mut config = project();
    let mut tmux = entry("tm", "tmux");
    tmux.tmux = Some(TmuxConfig {
        session: "cc".to_string(),
        auto_start: false,
        auto_restart: false,
        hook_relay: true,
    });
    config.agents.push(tmux);
    let mut engine = Engine::new(config, SessionManager::new("coder".to_string()));
    assert!(!engine.uses_inplace_tool_progress("k"));
    engine.active_agents.insert("k".to_string(), "tm".to_string());
    assert!(engine.uses_inplace_tool_progress("k"));
}

// ---------------------------------------------------------------------------
// Conversations
// ---------------------------------------------------------------------------

#[test]
fn a_busy_session_queues_messages() {
    let mut engine = engine();
    let session = match engine.receive("k", &message("one")) {
        Reception::Run(s) => s,
        _ => panic!("expected a turn"),
    };
    for i in 0..MAX_QUEUED_MESSAGES {
        assert!(matches!(engine.receive("k", &message("more")), Reception::Enqueue(_)));
        assert!(engine.queue_for_turn("k", message(&format!("m{}", i))));
    }
    assert!(!engine.queue_for_turn("k", message("too many")));
    match engine.receive("k", &message("/btw hurry")) {
        Reception::Inject(text) => assert_eq!(text, "hurry"),
        _ => panic!("expected an injection"),
    }
    // Another key is not affected.
    assert!(matches!(engine.receive("other", &message("hi")), Reception::Run(_)));
    // The lock is released only once the queue is empty.
    for i in 0..MAX_QUEUED_MESSAGES {
        assert!(!engine.relock(&session));
        assert_eq!(engine.next_message("k", &session).unwrap().text, format!("m{}", i));
    }
    assert!(engine.next_message("k", &session).is_none());
    assert!(engine.relock(&session));
    engine.unlock(&session);
}

#[test]
fn dropped_queues_come_back_in_order() {
    let mut engine = engine();
    engine.receive("k", &message("one"));
    engine.queue_for_turn("k", message("a"));
    engine.queue_for_turn("k", message("b"));
    let dropped: Vec<String> = engine.drop_queue("k").into_iter().map(|m| m.text).collect();
    assert_eq!(dropped, vec!["a", "b"]);
    assert!(engine.drop_queue("k").is_empty());
}

#[test]
fn permission_answers_pass_the_lock() {
    let mut engine = engine();
    engine.receive("k", &message("one"));
    assert_eq!(engine.begin_turn("k"), Some(false));
    assert_eq!(engine.begin_turn("nobody"), None);
    assert_eq!(engine.handle_pending_permission("k", "allow"), PermissionAnswer::Pass);
    engine.set_pending_permission("k", true);
    match engine.receive("k", &message(" ALLOW all ")) {
        Reception::Answer(d) => assert_eq!(d, PermissionDecision::AllowAll),
        _ => panic!("expected an answer"),
    }
    assert!(matches!(engine.receive("k", &message("hm?")), Reception::Unclear));
    engine.end_turn("k", true);
    assert_eq!(engine.handle_pending_permission("k", "allow"), PermissionAnswer::Pass);
    // The choice to allow everything lasts.
    assert_eq!(engine.begin_turn("k"), Some(true));
}

#[test]
fn stop_ends_the_turn_but_keeps_the_queue() {
    let mut engine = engine();
    let session = match engine.receive("k", &message("one")) {
        Reception::Run(s) => s,
        _ => panic!("expected a turn"),
    };
    engine.queue_for_turn("k", message("later"));
    assert!(!engine.is_stopped("k"));
    assert!(engine.stop_turn("k"));
    assert!(engine.is_stopped("k"));
    assert!(!engine.sessions.is_session_busy(&session));
    assert!(engine.relock(&session));
    assert_eq!(engine.next_message("k", &session).unwrap().text, "later");
    assert!(!engine.stop_turn("nobody"));
    assert_eq!(stop_reply(), "🛑 已中断当前任务");
}

#[test]
fn sessions_are_named_after_their_channel() {
    let mut engine = engine();
    let mut msg = message("one");
    msg.channel_name = Some("general".to_string());
    engine.receive("k", &msg);
    assert_eq!(engine.sessions.get_or_create("k").name.as_deref(), Some("general"));
}

#[test]
fn cleanup_frees_the_session() {
    let mut engine = engine();
    engine.receive("k", &message("one"));
    engine.sessions.set_tmux_session("k", "cc");
    assert!(engine.after_command("k", "list").is_none());
    assert!(engine.interactive_states.get("k").is_some());
    assert_eq!(engine.after_command("k", "new"), Some(("/tmp".to_string(), Some("cc".to_string()))));
    assert!(engine.interactive_states.get("k").is_none());
    assert!(matches!(engine.receive("k", &message("two")), Reception::Run(_)));
}

#[test]
fn idle_sessions_are_replaced() {
    let mut config = project();
    config.reset_on_idle_mins = 10;
    let mut engine = Engine::new(config, SessionManager::new("coder".to_string()));
    let old = Timestamp { secs: 1_000_000, nanos: 0 };
    let session =
        engine.sessions.add_session("k", Some("old".into()), "", "id-old".to_string(), old);
    engine.receive("k", &message("hi"));
    let soon = Timestamp { secs: 1_000_000 + 599, nanos: 999_999_999 };
    assert!(engine.reset_if_idle_at("k", &session, "id-x".to_string(), soon).is_none());
    let late = Timestamp { secs: 1_000_000 + 600, nanos: 0 };
    let fresh = engine.reset_if_idle_at("k", &session, "id-new".to_string(), late).unwrap();
    assert_eq!(fresh.id, "id-new");
    assert!(engine.sessions.is_session_busy(&fresh));
    assert!(!engine.sessions.is_session_busy(&session));
    assert_eq!(engine.sessions.get_or_create("k").id, "id-new");
    // By the clock, a session of long ago is idle.
    assert!(engine.reset_if_idle("other", &fresh).is_some());
}

#[test]
fn agent_sessions_are_kept_for_the_next_turn() {
    let mut engine = engine();
    engine.receive("k", &message("hi"));
    assert!(engine.save_agent_session("k", &Some("abc".to_string())));
    assert!(!engine.save_agent_session("k", &Some("__continue__".to_string())));
    assert!(!engine.save_agent_session("k", &Some("".to_string())));
    assert!(!engine.save_agent_session("k", &None));
    assert_eq!(engine.sessions.get_agent_session_id("k").as_deref(), Some("abc"));
}

#[test]
fn verbose_is_switched_per_key() {
    let mut engine = engine();
    assert!(engine.effective_display("k").verbose);
    assert!(engine.set_verbose("k", false, "").contains("安静模式"));
    assert!(!engine.effective_display("k").verbose);
    assert!(engine.effective_display("other").verbose);
    engine.set_verbose("k", false, " ON ");
    assert!(engine.effective_display("k").verbose);
    engine.set_verbose("k", true, "on");
    assert!(!engine.effective_display("k").verbose);
}

#[test]
fn decisions_in_words() {
    assert_eq!(parse_decision(" Yes "), Some(PermissionDecision::Allow));
    assert_eq!(parse_decision("拒绝"), Some(PermissionDecision::Deny));
    assert_eq!(parse_decision("全部允许"), Some(PermissionDecision::AllowAll));
    assert_eq!(parse_decision("perhaps"), None);
    assert!(permission_reminder().starts_with("🔐 有权限请求等待确认："));
    let (_, buttons) = permission_reminder_buttons();
    assert_eq!(buttons[2].callback_data, "perm_text:allow_all");
}

#[test]
fn routes_of_commands() {
    assert_eq!(route_command("agent"), CommandRoute::Agent);
    assert_eq!(route_command("compact"), CommandRoute::Compress);
    assert_eq!(route_command("cancel"), CommandRoute::Stop);
    assert_eq!(route_command("verbose"), CommandRoute::Verbose { quiet: false });
    assert_eq!(route_command("quiet"), CommandRoute::Verbose { quiet: true });
    assert_eq!(route_command("skills"), CommandRoute::Skills);
    assert_eq!(route_command("new"), CommandRoute::BuiltIn);
    assert!(resets_agent("cd"));
    assert!(!resets_agent("model"));
}

#[test]
fn replies_of_the_engine() {
    assert_eq!(inject_reply(true), ("💬 已注入".to_string(), true));
    assert_eq!(inject_reply(false).1, false);
    assert_eq!(queue_reply(true), ("⏳ 排队中，前面还有任务在跑~".to_string(), true));
    assert_eq!(queue_reply(false).0, "🚫 队列满了，等一下再发吧");
    assert_eq!(failure_reply("oops"), "💥 出错了: oops");
    assert_eq!(compress_reply(true), "🗜️ 上下文压缩已触发");
    assert_eq!(compress_reply(false), "🗜️ 没有运行中的 Agent 会话");
}

#[test]
fn menus_hold_every_command() {
    let commands = vec![CommandConfig {
        name: "deploy".to_string(),
        description: "Ship it".to_string(),
        prompt: "p".to_string(),
    }];
    let skills = vec![Skill { name: "review".to_string(), description: "".to_string() }];
    let menu = collect_all_commands(&commands, &skills);
    assert_eq!(menu[0].name, "new");
    assert_eq!(menu[menu.len() - 2].name, "deploy");
    assert_eq!(menu[menu.len() - 1].name, "review");
    assert_eq!(list_skills(&skills), "🎯 可用技能 (1):\n  /review");
    assert_eq!(list_skills(&vec![]), "🔍 暂无可用技能。");
}

#[test]
fn names_come_from_channels() {
    let mut sessions = SessionManager::new("coder".to_string());
    sessions.new_session("discord:1", None);
    sessions.new_session("discord:2", Some("named".to_string()));
    sessions.new_session("telegram:3", None);
    assert_eq!(unnamed_keys(&sessions.list_all()), vec!["discord:1".to_string()]);
    assert_eq!(channel_of_key("discord:1:2"), Some("1:2"));
    assert_eq!(channel_of_key("discord"), None);
    let data = serde_json::from_str(r#"{"name":" general "}"#).unwrap();
    assert_eq!(channel_name_in(&data), Some("general".to_string()));
    let empty = serde_json::from_str(r#"{"name":" "}"#).unwrap();
    assert_eq!(channel_name_in(&empty), None);
}

// ---------------------------------------------------------------------------
// The way in
// ---------------------------------------------------------------------------

fn reply_of(actions: &[IntakeAction<String>]) -> Option<String> {
    actions.iter().find_map(|a| match a {
        IntakeAction::Reply(s) => Some(s.clone()),
        _ => None,
    })
}

#[test]
fn plain_messages_reach_the_agent() {
    let mut config = project();
    config.sync_auto = Some(true);
    let (intake, acts) =
        Intake::new(message("hello")).step(&config, IntakeInput::Checked(true));
    assert_eq!(intake.phase, IntakePhase::Rating);
    assert!(matches!(&acts[0], IntakeAction::CheckRate(u) if u == "u"));
    let (intake, acts) = intake.step(&config, IntakeInput::Rated(true));
    assert_eq!(intake.phase, IntakePhase::Ready);
    assert_eq!(acts.len(), 2);
    assert!(matches!(acts[0], IntakeAction::SyncPull));
    assert!(matches!(acts[1], IntakeAction::Dispatch));
    assert_eq!(intake.msg.text, "hello");
}

#[test]
fn unwanted_messages_are_dropped() {
    let mut config = project();
    config.allow_from = "someone".to_string();
    config.banned_words = vec!["bad".to_string()];
    let (intake, acts) = Intake::new(message("x")).step(&config, IntakeInput::Checked(true));
    assert_eq!(intake.phase, IntakePhase::Done);
    assert!(acts.is_empty());
    config.allow_from = "*".to_string();
    let (intake, _) = Intake::new(message("x")).step(&config, IntakeInput::Checked(false));
    assert_eq!(intake.phase, IntakePhase::Done);
    let (intake, acts) = Intake::new(message("BAD")).step(&config, IntakeInput::Checked(true));
    assert_eq!(intake.phase, IntakePhase::Done);
    assert!(acts.is_empty());
    let (intake, _) = Intake::new(message("ok")).step(&config, IntakeInput::Checked(true));
    let (intake, acts) = intake.step(&config, IntakeInput::Rated(false));
    assert_eq!(intake.phase, IntakePhase::Done);
    assert_eq!(reply_of(&acts).as_deref(), Some("🐢 慢一点~ 消息太频繁了"));
}

#[test]
fn recordings_are_transcribed() {
    let config = project();
    let mut msg = message("");
    msg.voice = Some("/tmp/v.ogg".to_string());
    let (intake, acts) = Intake::new(msg).step(&config, IntakeInput::Checked(true));
    assert_eq!(intake.phase, IntakePhase::Transcribing);
    assert!(matches!(&acts[0], IntakeAction::Transcribe(p) if p == "/tmp/v.ogg"));
    let (intake, _) = intake.step(&config, IntakeInput::Transcribed(Ok("spoken".to_string())));
    assert_eq!(intake.phase, IntakePhase::Rating);
    assert_eq!(intake.msg.text, "spoken");
    let mut msg = message("");
    msg.voice = Some("/tmp/v.ogg".to_string());
    let (intake, _) = Intake::new(msg).step(&config, IntakeInput::Checked(true));
    let (intake, acts) = intake.step(&config, IntakeInput::Transcribed(Err("no".to_string())));
    assert_eq!(intake.phase, IntakePhase::Done);
    assert_eq!(reply_of(&acts).as_deref(), Some("🎙️ 语音识别失败: no"));
}

fn commanding(config: &ProjectConfig, text: &str) -> Intake {
    let (intake, _) = Intake::new(message(text)).step(config, IntakeInput::Checked(true));
    let (intake, acts) = intake.step(config, IntakeInput::Rated(true));
    assert_eq!(intake.phase, IntakePhase::Commanding);
    assert!(matches!(acts[0], IntakeAction::RunCommand(_, _)));
    intake
}

#[test]
fn commands_are_built_in_custom_or_skills() {
    let mut config = project();
    config.commands = vec![CommandConfig {
        name: "deploy".to_string(),
        description: "".to_string(),
        prompt: "Deploy".to_string(),
    }];
    config.aliases =
        vec![AliasConfig { trigger: "ship".to_string(), command: "/deploy".to_string() }];
    let (intake, acts) = commanding(&config, "/new x").step(&config, IntakeInput::Handled(true));
    assert_eq!(intake.phase, IntakePhase::Done);
    assert!(acts.is_empty());
    let (intake, _) = commanding(&config, "ship").step(&config, IntakeInput::Handled(false));
    assert_eq!(intake.phase, IntakePhase::Ready);
    assert!(intake.msg.text.starts_with("Deploy"));
    let (intake, acts) = commanding(&config, "/what now").step(&config, IntakeInput::Handled(false));
    assert_eq!(intake.phase, IntakePhase::Resolving);
    assert!(matches!(&acts[0], IntakeAction::ResolveSkill(n, a) if n == "what" && a == "now"));
    let (intake, acts) = intake.step(&config, IntakeInput::Skill(None));
    assert_eq!(intake.phase, IntakePhase::Done);
    assert_eq!(
        reply_of(&acts).as_deref(),
        Some("❓ 未知命令: /what\n输入 /help 查看可用命令。")
    );
    let (intake, _) = commanding(&config, "/what now").step(&config, IntakeInput::Handled(false));
    let (intake, _) = intake.step(&config, IntakeInput::Skill(Some("Do it".to_string())));
    assert_eq!(intake.phase, IntakePhase::Ready);
    assert_eq!(intake.msg.text, "Do it");
}

// ---------------------------------------------------------------------------
// The way through the agent
// ---------------------------------------------------------------------------

fn names(actions: &[WorkAction<String>]) -> Vec<String> {
    actions
        .iter()
        .map(|a| match a {
            WorkAction::StartTyping => "type".to_string(),
            WorkAction::StopTyping => "still".to_string(),
            WorkAction::StartAgent { resume } => format!("start:{}", resume),
            WorkAction::Send(s) => format!("send:{}", s),
            WorkAction::RunTurn { stoppable } => format!("run:{}", stoppable),
            WorkAction::EndTurn => "end".to_string(),
            WorkAction::ReturnEvents => "return".to_string(),
            WorkAction::ForgetAgentSession => "forget".to_string(),
            WorkAction::Reply(s) => format!("reply:{}", s),
            WorkAction::SyncPush => "push".to_string(),
            WorkAction::Compact => "compact".to_string(),
            WorkAction::NextMessage => "next".to_string(),
            WorkAction::CheckAgent => "check".to_string(),
            WorkAction::DropQueue(_) => "drop".to_string(),
            WorkAction::Unlock => "unlock".to_string(),
        })
        .collect()
}

fn ended(silent: bool, alive: bool) -> WorkInput {
    WorkInput::Ended { result: Some(TurnEnd { tokens: 50, silent }), alive }
}

fn run(work: Work, config: &ProjectConfig, inputs: Vec<WorkInput>) -> (Work, Vec<String>) {
    let mut work = work;
    let mut all = Vec::new();
    for input in inputs {
        let (next, acts) = work.step(config, input);
        work = next;
        all.extend(names(&acts));
    }
    (work, all)
}

#[test]
fn a_message_is_worked_off() {
    let mut config = project();
    config.sync_auto = Some(true);
    config.auto_compress = AutoCompress { enabled: true, max_tokens: 40 };
    let (work, first) = Work::new("hi".to_string());
    assert_eq!(names(&first), vec!["type", "check"]);
    let (work, acts) = run(
        work,
        &config,
        vec![
            WorkInput::Found { state: true, alive: true },
            WorkInput::Sent(Sent::Running),
            ended(false, true),
            WorkInput::Next(None),
        ],
    );
    assert_eq!(acts, vec!["send:hi", "run:true", "end", "return", "push", "compact", "next"]);
    assert_eq!(work.phase, WorkPhase::Done);
}

#[test]
fn failures_release_the_session() {
    let config = project();
    let start = || Work::new("hi".to_string()).0;
    let dead = || WorkInput::Found { state: true, alive: false };
    let alive = || WorkInput::Found { state: true, alive: true };
    let (work, acts) =
        run(start(), &config, vec![WorkInput::Found { state: false, alive: false }]);
    assert_eq!(acts, vec!["unlock"]);
    assert_eq!(work.phase, WorkPhase::Done);
    let (_, acts) = run(
        start(),
        &config,
        vec![dead(), WorkInput::Started(Some(Err("no".to_string())))],
    );
    assert_eq!(acts, vec!["start:true", "still", "reply:💥 Agent 启动失败: no", "unlock"]);
    let (_, acts) = run(
        start(),
        &config,
        vec![alive(), WorkInput::Sent(Sent::Failed("pipe".to_string()))],
    );
    assert_eq!(acts, vec!["send:hi", "still", "reply:💥 发送失败: pipe", "unlock"]);
    let (_, acts) = run(start(), &config, vec![alive(), WorkInput::Sent(Sent::NoEvents)]);
    assert_eq!(acts[2], "reply:💥 Agent 会话异常，发 /new 重建");
}

#[test]
fn a_failed_resume_is_tried_afresh() {
    let config = project();
    let (work, _) = Work::new("hi".to_string());
    let (work, acts) = run(
        work,
        &config,
        vec![
            WorkInput::Found { state: true, alive: false },
            WorkInput::Started(Some(Ok(()))),
            WorkInput::Sent(Sent::Running),
            WorkInput::Ended { result: None, alive: false },
            WorkInput::Started(Some(Ok(()))),
            WorkInput::Sent(Sent::Running),
            ended(true, false),
            WorkInput::Next(None),
        ],
    );
    assert_eq!(
        acts,
        vec![
            "start:true", "send:hi", "run:true", "forget", "start:false", "send:hi", "type",
            "run:false", "return", "end", "next",
        ]
    );
    assert_eq!(work.phase, WorkPhase::Done);
    // Where the fresh agent fails too, the queue is worked off all the same.
    let (work, acts) = run(
        Work { phase: WorkPhase::Restarting, text: "hi".to_string(), tokens: None },
        &config,
        vec![WorkInput::Started(Some(Err("no".to_string())))],
    );
    assert_eq!(acts, vec!["reply:💥 Agent 启动失败: no", "next"]);
    assert_eq!(work.phase, WorkPhase::Draining);
}

#[test]
fn the_queue_is_worked_off() {
    let config = project();
    let (work, first) = Work::adopt();
    assert_eq!(names(&first), vec!["check"]);
    let (work, acts) = run(
        work,
        &config,
        vec![
            WorkInput::Found { state: true, alive: true },
            WorkInput::Next(Some("a".to_string())),
            WorkInput::Agent(true),
            WorkInput::Sent(Sent::Running),
            ended(false, true),
            WorkInput::Next(Some("b".to_string())),
            WorkInput::Agent(false),
            WorkInput::Started(Some(Err("gone".to_string()))),
        ],
    );
    assert_eq!(
        acts,
        vec![
            "next", "check", "send:a", "type", "run:true", "end", "return", "next", "check",
            "start:true", "reply:💥 Agent 会话已断开: gone", "drop", "unlock",
        ]
    );
    assert_eq!(work.phase, WorkPhase::Done);
    let (work, acts) =
        run(Work::adopt().0, &config, vec![WorkInput::Found { state: true, alive: false }]);
    assert_eq!(acts, vec!["unlock"]);
    assert_eq!(work.phase, WorkPhase::Done);
    let sending = || Work { phase: WorkPhase::DrainSending, text: "a".to_string(), tokens: None };
    let (_, acts) = run(sending(), &config, vec![WorkInput::Sent(Sent::NoAgent)]);
    assert_eq!(acts, vec!["reply:💥 没有活跃的 Agent 会话", "unlock"]);
    let (_, acts) =
        run(sending(), &config, vec![WorkInput::Sent(Sent::Failed("x".to_string()))]);
    assert_eq!(acts, vec!["reply:💥 发送排队消息失败: x", "unlock"]);
    let (_, acts) = run(sending(), &config, vec![WorkInput::Sent(Sent::Lost)]);
    assert_eq!(acts, vec!["unlock"]);
}

#[test]
fn an_aside_reaches_the_running_turn() {
    let mut engine = engine();
    assert!(!engine.has_turn("k"));
    assert!(matches!(engine.receive("k", &message("work")), Reception::Run(_)));
    assert!(engine.has_turn("k"));
    assert!(!engine.has_turn("other"));
    let config = project();
    let (intake, _) = commanding(&config, "/btw hi").step(&config, IntakeInput::Handled(false));
    let (intake, acts) = intake.step(&config, IntakeInput::Skill(None));
    assert_eq!(intake.phase, IntakePhase::Asking);
    assert!(matches!(acts[0], IntakeAction::CheckTurn));
    let (intake, acts) = intake.step(&config, IntakeInput::Turn(engine.has_turn("k")));
    assert_eq!(intake.phase, IntakePhase::Ready);
    assert!(matches!(acts[acts.len() - 1], IntakeAction::Dispatch));
    match engine.receive("k", &intake.msg) {
        Reception::Inject(text) => assert_eq!(text, "hi"),
        _ => panic!("an aside is injected"),
    }
}

#[test]
fn an_aside_without_a_turn_is_unknown() {
    let config = project();
    let (intake, _) = commanding(&config, "/btw hi").step(&config, IntakeInput::Handled(false));
    let (intake, _) = intake.step(&config, IntakeInput::Skill(None));
    let (intake, acts) = intake.step(&config, IntakeInput::Turn(false));
    assert_eq!(intake.phase, IntakePhase::Done);
    let reply = reply_of(&acts).unwrap();
    assert!(reply.starts_with("❓ 未知命令: /btw"), "got: {reply}");
    // Nothing to say is nothing to inject.
    let (intake, _) = commanding(&config, "/btw ").step(&config, IntakeInput::Handled(false));
    let (intake, _) = intake.step(&config, IntakeInput::Skill(None));
    assert_eq!(intake.phase, IntakePhase::Done);
}

#[test]
fn lowercase_words_decide() {
    assert_eq!(parse_wish("on"), Some(true));
    assert_eq!(parse_wish("关"), Some(false));
    assert_eq!(parse_wish("ON"), None);
    assert!(contains_any("so bad", &vec!["x".to_string(), "bad".to_string()]));
    assert!(!contains_any("so BAD", &vec!["bad".to_string()]));
    assert!(!contains_any("so bad", &vec![]));
}

#[test]
fn verbose_turns_over_and_back() {
    let mut engine = engine();
    let before = engine.effective_display("k").verbose;
    engine.set_verbose("k", false, "");
    assert_eq!(engine.effective_display("k").verbose, !before);
    engine.switch_verbose("k", None);
    assert_eq!(engine.effective_display("k").verbose, before);
    engine.switch_verbose("k", Some(false));
    assert!(!engine.effective_display("k").verbose);
}
