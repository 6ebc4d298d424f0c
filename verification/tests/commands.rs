use agentbridge::bytes::{shorten, within};
use agentbridge::clock::{is_valid_time, Timestamp};
use agentbridge::commands::{
    attach_listed, change_dir, cmd_attach, cmd_cron, cmd_current, cmd_delete, cmd_dir,
    cmd_help, cmd_history, cmd_list, cmd_list_commands, cmd_mode, cmd_model, cmd_name, cmd_new,
    cmd_resume, cmd_status, cmd_switch, cmd_sync, cron_added, cron_deleted, cron_listed,
    cut_pieces, dispatch, is_valid_mode, join_path, parse_number,
    parse_tmux_names, synced, Answer, CronJob, DirProbe, Direction, Errand,
};
use agentbridge::config::{
    AgentConfig, AgentEntry, AutoCompress, CommandConfig, DisplayConfig, ProjectConfig,
};
use agentbridge::engine::Engine;
use agentbridge::session::{SessionManager, CONTINUE_SESSION};
use agentbridge::table::PairTable;

fn config() -> ProjectConfig {
    ProjectConfig {
        name: "t".to_string(),
        work_dir: "/tmp".to_string(),
        allow_from: "*".to_string(),
        banned_words: vec![],
        aliases: vec![],
        commands: vec![],
        display: DisplayConfig {
            verbose: true,
            thinking_messages: true,
            thinking_max_len: 300,
            tool_messages: true,
            tool_max_len: 500,
            context_indicator: false,
            context_window: 0,
        },
        agent: AgentConfig::default(),
        program: "coder".to_string(),
        agents: vec![AgentEntry {
            name: "coder".to_string(),
            backend: "coder".to_string(),
            mode: "default".to_string(),
            model: None,
            acp: None,
            tmux: None,
        }],
        default_agent: "coder".to_string(),
        reset_on_idle_mins: 0,
        auto_compress: AutoCompress { enabled: false, max_tokens: 0 },
        sync_auto: None,
    }
}

fn reply(answer: Answer<String>) -> String {
    match answer {
        Answer::Reply(s) => s,
        Answer::Ask(_) => panic!("expected a reply"),
    }
}

#[test]
fn attach_binds_channel_to_named_session() {
    let mut mgr = SessionManager::new("coder".to_string());
    let key = "discord:chanA";
    let reply = reply(cmd_attach(&mut mgr, key, "nova-bidding"));
    assert!(reply.contains("nova-bidding"), "got: {reply}");
    assert_eq!(mgr.get_tmux_session(key).as_deref(), Some("nova-bidding"));
}

#[test]
fn attach_different_channels_bind_different_sessions() {
    let mut mgr = SessionManager::new("coder".to_string());
    cmd_attach(&mut mgr, "discord:A", "proj-a");
    cmd_attach(&mut mgr, "discord:B", "proj-b");
    assert_eq!(mgr.get_tmux_session("discord:A").as_deref(), Some("proj-a"));
    assert_eq!(mgr.get_tmux_session("discord:B").as_deref(), Some("proj-b"));
}

#[test]
fn resume_no_args_no_sessions_prompts_new() {
    let mut mgr = SessionManager::new("coder".to_string());
    let reply = cmd_resume(&mut mgr, "discord:chan", "coder", "");
    assert!(reply.contains("No sessions"), "got: {reply}");
    assert!(reply.contains("/new"));
}

#[test]
fn resume_no_args_lists_sessions_with_hint() {
    let mut mgr = SessionManager::new("coder".to_string());
    mgr.new_session_with_agent("discord:chan", Some("first".into()), "coder");
    let reply = cmd_resume(&mut mgr, "discord:chan", "coder", "");
    assert!(reply.contains("first"), "got: {reply}");
    assert!(reply.contains("/resume <number or id>"), "got: {reply}");
}

#[test]
fn resume_with_id_prefix_switches_session() {
    let mut mgr = SessionManager::new("coder".to_string());
    let s1 = mgr.new_session_with_agent("discord:chan", Some("one".into()), "coder");
    // Make "two" the active session, then resume back to s1 by ID prefix.
    mgr.new_session_with_agent("discord:chan", Some("two".into()), "coder");
    let reply = cmd_resume(&mut mgr, "discord:chan", "coder", &s1.id[..8]);
    assert!(reply.contains("Switched to"), "got: {reply}");
    assert_eq!(mgr.get_or_create("discord:chan").id, s1.id);
}

#[test]
fn valid_modes_recognised() {
    for m in ["default", "yolo", "plan", "auto"] {
        assert!(is_valid_mode(m), "{m} should be valid");
    }
    assert!(!is_valid_mode(""));
    assert!(!is_valid_mode("bogus"));
}

#[test]
fn model_override_set_and_reported() {
    let config = config();
    let mut overrides = PairTable::new();
    let set_reply = cmd_model(&config, "discord:chan", "coder", &mut overrides, "coder-5");
    assert!(set_reply.contains("coder-5"), "got: {set_reply}");
    let show_reply = cmd_model(&config, "discord:chan", "coder", &mut overrides, "");
    assert!(show_reply.contains("coder-5"), "got: {show_reply}");
    assert!(show_reply.contains("override"), "got: {show_reply}");
    assert_eq!(
        cmd_model(&config, "discord:other", "coder", &mut overrides, ""),
        "Current model: default (config) [agent: coder]"
    );
}

#[test]
fn modes_are_set_and_refused() {
    let config = config();
    let mut modes = PairTable::new();
    assert_eq!(
        cmd_mode(&config, "k", "coder", &mut modes, "wild"),
        "Unknown mode: wild\nAvailable: default, yolo, plan, auto"
    );
    assert_eq!(
        cmd_mode(&config, "k", "coder", &mut modes, ""),
        "Current mode: default (config) [agent: coder]\nAvailable: default, yolo, plan, auto"
    );
    assert_eq!(
        cmd_mode(&config, "k", "coder", &mut modes, "plan"),
        "Mode set to: plan [agent: coder]\nTakes effect on next message."
    );
    assert_eq!(modes.get("k", "coder"), Some("plan"));
}

fn ship() -> Vec<CommandConfig> {
    vec![CommandConfig {
        name: "ship".to_string(),
        description: "Ship it".to_string(),
        prompt: "p".to_string(),
    }]
}

#[test]
fn help_and_custom_commands() {
    assert!(cmd_help(&vec![]).starts_with("/new [name] - New session\n/list"));
    assert!(cmd_help(&vec![]).ends_with("/help - Show help"));
    assert!(cmd_help(&ship()).ends_with("/help - Show help\n\nCustom commands:\n/ship - Ship it"));
    assert_eq!(cmd_list_commands(&ship()), "Custom commands:\n/ship - Ship it\n");
    assert!(cmd_list_commands(&vec![]).starts_with("No custom commands configured.\n"));
}

fn at(secs: i64) -> Timestamp {
    Timestamp { secs, nanos: 0 }
}

fn two_sessions() -> SessionManager {
    let mut mgr = SessionManager::new("coder".to_string());
    // 2001-09-09 01:46 and an hour later.
    mgr.add_session("k", Some("one".into()), "coder", "aaaaaaaa-1".to_string(), at(1_000_000_000));
    mgr.add_session("k", None, "coder", "aaaabbbb-2".to_string(), at(1_000_003_600));
    mgr
}

#[test]
fn lists_show_sessions() {
    let mut mgr = two_sessions();
    assert_eq!(
        cmd_list(&mut mgr, "k", "coder"),
        "1. unnamed [aaaabbbb] 09-09 02:46 <-\n2. one [aaaaaaaa] 09-09 01:46"
    );
    assert_eq!(cmd_list(&mut mgr, "k", "kiro"), "No sessions.");
    assert_eq!(
        cmd_current(&mut mgr, "k"),
        "Current session\nID: aaaabbbb\nName: unnamed\nCreated: 2001-09-09 02:46"
    );
}

#[test]
fn history_shows_agent_sessions() {
    let mut mgr = two_sessions();
    mgr.set_agent_session_id_at("k", "0123456789", at(1_000_003_600));
    assert_eq!(
        cmd_history(&mut mgr, "k"),
        "Session history:\n▶ 1. unnamed | 09-09 02:46 | agent:01234567\n◻ 2. one | 09-09 01:46 | agent:-"
    );
    assert_eq!(cmd_history(&mut mgr, "nobody"), "No sessions found.");
}

#[test]
fn switches_by_number_and_id() {
    let mut mgr = two_sessions();
    assert_eq!(cmd_switch(&mut mgr, "k", ""), "Usage: /switch <number or id>");
    assert_eq!(cmd_switch(&mut mgr, "k", "3"), "Invalid number. 2 sessions total.");
    assert_eq!(cmd_switch(&mut mgr, "k", "0"), "Invalid number. 2 sessions total.");
    assert_eq!(cmd_switch(&mut mgr, "k", "2"), "Switched to: one [aaaaaaaa]");
    assert_eq!(mgr.get_or_create("k").id, "aaaaaaaa-1");
    assert_eq!(cmd_switch(&mut mgr, "k", "aaaab"), "Switched to: unnamed [aaaabbbb]");
    assert_eq!(
        cmd_switch(&mut mgr, "k", "aaaa"),
        "Matched 2 sessions, please provide a more specific ID."
    );
    assert_eq!(cmd_switch(&mut mgr, "k", "zz"), "No matching session found.");
    // The start of an id that looks like a number.
    mgr.add_session("k", Some("digits".into()), "coder", "12345678-3".to_string(), at(0));
    cmd_switch(&mut mgr, "k", "1");
    assert_eq!(cmd_switch(&mut mgr, "k", "12345678"), "Switched to: digits [12345678]");
    // A number is a number, though an id starts so.
    assert_eq!(cmd_switch(&mut mgr, "k", "12"), "Invalid number. 3 sessions total.");
}

#[test]
fn sessions_are_made_named_and_deleted() {
    let mut mgr = SessionManager::new("coder".to_string());
    assert_eq!(cmd_name(&mut mgr, "k", "x"), "No active session to rename.");
    let made = cmd_new(&mut mgr, "k", "coder", "work");
    assert!(made.starts_with("New session created: "));
    let s = mgr.get_or_create("k");
    assert_eq!(s.name.as_deref(), Some("work"));
    assert_eq!(made, format!("New session created: {}", &s.id[..8]));
    assert_eq!(
        cmd_name(&mut mgr, "k", " "),
        "Current session name: work\nUsage: /name <new name>"
    );
    assert_eq!(cmd_name(&mut mgr, "k", " play "), "Session renamed to: play");
    let deleted = cmd_delete(&mut mgr, "k");
    assert!(deleted.starts_with(&format!("Deleted session [{}]\nNew session: [", &s.id[..8])));
    assert_ne!(mgr.get_or_create("k").id, s.id);
    let status = cmd_status(
        &config(),
        &mut mgr,
        "k",
        "coder",
        &PairTable::new(),
        &PairTable::new(),
    );
    assert!(status.starts_with(
        "Status\nProject: t\nAgent: coder\nMode: default\nModel: default\nSession: "
    ));
    assert!(status.ends_with(" (unnamed)"));
}

#[test]
fn cron_is_parsed() {
    match cmd_cron("add 0 6 * * * Good morning summary") {
        Answer::Ask(Errand::AddJob { expr, prompt, description }) => {
            assert_eq!(expr, "0 6 * * * *");
            assert_eq!(prompt, "Good morning summary");
            assert_eq!(description, "Good morning summary");
        }
        _ => panic!("expected a job"),
    }
    match cmd_cron(&format!("add 1 2 3 4 5 {}", "字".repeat(31))) {
        Answer::Ask(Errand::AddJob { description, .. }) => {
            assert_eq!(description, format!("{}...", "字".repeat(30)))
        }
        _ => panic!("expected a job"),
    }
    assert!(reply(cmd_cron("add 0 6 * * *")).starts_with("Usage: /cron add"));
    assert!(matches!(cmd_cron("list"), Answer::Ask(Errand::ListJobs)));
    assert!(matches!(cmd_cron("rm  7 "), Answer::Ask(Errand::DeleteJob(id)) if id == "7"));
    assert_eq!(reply(cmd_cron("del")), "Usage: /cron del <id>");
    assert!(reply(cmd_cron("")).starts_with("Usage: /cron add|list|del\n"));
    assert_eq!(cut_pieces("a  b c", 3), vec!["a", "", "b c"]);
    assert_eq!(cut_pieces("a ", 3), vec!["a", ""]);
}

#[test]
fn cron_replies() {
    let job = CronJob {
        id: "7".to_string(),
        cron_expr: "0 6 * * * *".to_string(),
        prompt: "hi".to_string(),
        description: "d".to_string(),
        enabled: false,
    };
    assert_eq!(cron_listed(&vec![]), "No cron jobs configured.");
    let jobs = vec![job];
    assert_eq!(cron_listed(&jobs), "1. [7] OFF | 0 6 * * * * | d");
    let added = Ok(jobs.into_iter().next().unwrap());
    assert_eq!(cron_added(&added), "Cron job added:\nID: 7\nSchedule: 0 6 * * * *\nPrompt: hi");
    assert_eq!(cron_added(&Err("bad".to_string())), "Failed to add cron job: bad");
    assert_eq!(cron_deleted("7", true), "Cron job 7 deleted.");
    assert_eq!(cron_deleted("7", false), "Cron job 7 not found.");
}

#[test]
fn directories_are_shown_and_changed() {
    let config = config();
    let mut mgr = SessionManager::new("coder".to_string());
    assert_eq!(
        reply(cmd_dir(&config, &mut mgr, "k", "")),
        "Work directory: /tmp\n(source: config default)"
    );
    assert!(matches!(
        cmd_dir(&config, &mut mgr, "k", "sub"),
        Answer::Ask(Errand::ProbeDir(p)) if p == "/tmp/sub"
    ));
    assert_eq!(
        change_dir(&mut mgr, "k", "/tmp/sub", &DirProbe::Missing),
        "Path does not exist: /tmp/sub"
    );
    assert_eq!(
        change_dir(&mut mgr, "k", "/tmp/sub", &DirProbe::NotADirectory),
        "Not a directory: /tmp/sub"
    );
    assert_eq!(mgr.get_work_dir("k"), None);
    assert_eq!(
        change_dir(&mut mgr, "k", "/tmp/sub", &DirProbe::Directory("/real".to_string())),
        "📁 已切换到: /real"
    );
    assert_eq!(mgr.get_work_dir("k").as_deref(), Some("/real"));
    assert_eq!(mgr.get_agent_session_id("k").as_deref(), Some(CONTINUE_SESSION));
    assert_eq!(
        reply(cmd_dir(&config, &mut mgr, "k", "")),
        "Work directory: /real\n(source: session override)"
    );
    assert_eq!(reply(cmd_dir(&config, &mut mgr, "k", "reset")), "📁 已切换回默认目录: /tmp");
    assert_eq!(mgr.get_work_dir("k").as_deref(), Some("/tmp"));
    assert_eq!(join_path("", "x"), "x");
    assert_eq!(join_path("/a/", "x"), "/a/x");
    assert_eq!(join_path("/a", "/x"), "/x");
}

#[test]
fn tmux_sessions_are_listed() {
    let mut mgr = SessionManager::new("coder".to_string());
    assert!(matches!(cmd_attach(&mut mgr, "k", "  "), Answer::Ask(Errand::ListTmux)));
    let names = parse_tmux_names(" a \n\nb\r\n");
    assert_eq!(names, vec!["a", "b"]);
    assert_eq!(
        attach_listed(&mgr, "k", &Some(names)),
        "可 attach 的 tmux 会话:\na\nb\n\n用 /attach <会话名> 绑定本频道。"
    );
    cmd_attach(&mut mgr, "k", "cc");
    assert_eq!(
        attach_listed(&mgr, "k", &Some(vec![])),
        "没有运行中的 tmux 会话。\n当前已绑定: cc"
    );
    assert!(attach_listed(&mgr, "k", &None).starts_with("无法列出 tmux 会话"));
}

#[test]
fn sync_is_configured() {
    let mut config = config();
    assert!(reply(cmd_sync(&config, "")).starts_with("Sync not configured.\n"));
    config.sync_auto = Some(false);
    assert!(matches!(cmd_sync(&config, " "), Answer::Ask(Errand::Sync(Direction::Pull))));
    assert!(matches!(cmd_sync(&config, "push"), Answer::Ask(Errand::Sync(Direction::Push))));
    assert_eq!(
        reply(cmd_sync(&config, "up")),
        "Unknown sync direction: up\nUsage: /sync [pull|push]"
    );
    assert_eq!(synced(Ok("fine".to_string())), "fine");
    assert_eq!(synced(Err("bad".to_string())), "Sync failed: bad");
}

#[test]
fn numbers_are_parsed() {
    assert_eq!(parse_number("42"), Some(42));
    assert_eq!(parse_number("+7"), Some(7));
    assert_eq!(parse_number("007"), Some(7));
    assert_eq!(parse_number("+"), None);
    assert_eq!(parse_number("-1"), None);
    assert_eq!(parse_number(""), None);
    assert_eq!(parse_number("1x"), None);
    assert_eq!(parse_number("99999999999999999999999"), None);
    assert_eq!(parse_number(&format!("{}", usize::MAX)), Some(usize::MAX));
}

#[test]
fn dispatch_knows_its_commands() {
    let config = config();
    let mut mgr = two_sessions();
    let mut models = PairTable::new();
    let mut modes = PairTable::new();
    for cmd in [
        "help", "start", "status", "new", "list", "switch", "resume", "current", "delete", "model",
        "mode", "cron", "commands", "name", "rename", "history", "dir", "cd", "attach", "sync",
    ] {
        let r = dispatch(
            cmd, "", &config, &mut mgr, "k", "coder", &mut models, &mut modes, &config.commands,
        );
        assert!(r.is_some(), "{cmd}");
    }
    assert!(dispatch(
        "nope", "", &config, &mut mgr, "k", "coder", &mut models, &mut modes, &config.commands,
    )
    .is_none());
}

#[test]
fn the_engine_runs_commands() {
    let mut engine = Engine::new(config(), SessionManager::new("coder".to_string()));
    assert!(engine.run_command("k", "nope", "").is_none());
    let text = reply(engine.run_command("k", "mode", "plan").unwrap());
    assert!(text.contains("plan"));
    assert_eq!(engine.effective_mode("k", "coder"), "plan");
}

#[test]
fn odd_ids_are_shown_as_far_as_they_go() {
    let mut mgr = SessionManager::new("coder".to_string());
    mgr.add_session("short", None, "", "1234".to_string(), at(0));
    mgr.add_session("wide", None, "", "1234567字".to_string(), at(0));
    assert!(cmd_list(&mut mgr, "short", "coder").contains("[1234]"));
    assert!(cmd_list(&mut mgr, "wide", "coder").contains("[1234567]"));
    // An agent's id of nine bytes, the last three of them one character.
    mgr.get_or_create("k");
    mgr.set_agent_session_id("k", "123456字");
    let id = mgr.get_or_create("k").id;
    assert!(cmd_history(&mut mgr, "k").ends_with("agent:123456"));
    assert!(cmd_current(&mut mgr, "k").contains(&id[..8]));
    assert_eq!(cmd_switch(&mut mgr, "k", "1"), format!("Switched to: unnamed [{}]", &id[..8]));
    assert!(cmd_delete(&mut mgr, "k").starts_with(&format!("Deleted session [{}]", &id[..8])));
}

#[test]
fn texts_by_their_bytes() {
    assert_eq!(shorten("12345字89"), "12345字");
    assert_eq!(shorten("1234567字"), "1234567");
    assert_eq!(shorten("123"), "123");
    assert!(within("字a", 4));
    assert!(!within("字a", 3));
}

#[test]
fn sessions_of_one_moment_keep_their_numbers() {
    let mut mgr = SessionManager::new("coder".to_string());
    mgr.add_session("k", Some("a".into()), "coder", "aaaaaaaa-1".to_string(), at(5));
    mgr.add_session("k", Some("b".into()), "coder", "bbbbbbbb-2".to_string(), at(5));
    let shown = cmd_resume(&mut mgr, "k", "coder", "");
    assert!(shown.contains("1. a [aaaaaaaa]") && shown.contains("2. b [bbbbbbbb]"), "{shown}");
    assert_eq!(cmd_resume(&mut mgr, "k", "coder", "1"), "Switched to: a [aaaaaaaa]");
    assert_eq!(cmd_resume(&mut mgr, "k", "coder", "2"), "Switched to: b [bbbbbbbb]");
}

#[test]
fn times_of_the_calendar() {
    assert!(is_valid_time(at(0)));
    assert!(is_valid_time(Timestamp { secs: 59, nanos: 1_500_000_000 }));
    assert!(!is_valid_time(Timestamp { secs: 58, nanos: 1_500_000_000 }));
    assert!(!is_valid_time(at(i64::MAX)));
    // The first second of the earliest year, and the one before it.
    assert!(is_valid_time(at(-8_334_601_228_800)));
    assert!(!is_valid_time(at(-8_334_601_228_801)));
    assert!(is_valid_time(at(8_210_266_876_799)));
    assert!(!is_valid_time(at(8_210_266_876_800)));
}

#[test]
fn the_earliest_time_can_be_shown() {
    let mut mgr = SessionManager::new("coder".to_string());
    let earliest = at(-8_334_601_228_800);
    mgr.add_session("k", None, "coder", "12345678-a".to_string(), earliest);
    assert!(cmd_list(&mut mgr, "k", "coder").contains("01-01 00:00"));
}

#[test]
fn resume_counts_in_the_list_that_it_shows() {
    let mut mgr = SessionManager::new("coder".to_string());
    let c = "cccccccc-0000".to_string();
    let k = "kkkkkkkk-0000".to_string();
    mgr.add_session("key", Some("c".into()), "coder", c.clone(), at(1000));
    mgr.add_session("key", Some("k".into()), "kiro", k.clone(), at(2000));
    let shown = cmd_resume(&mut mgr, "key", "coder", "");
    assert!(shown.starts_with("1. c ["), "got: {shown}");
    assert!(!shown.contains("[kkkkkkkk]"), "got: {shown}");
    let reply = cmd_resume(&mut mgr, "key", "coder", "1");
    assert_eq!(reply, "Switched to: c [cccccccc]");
    assert_eq!(mgr.get_or_create("key").id, c);
    let reply = cmd_resume(&mut mgr, "key", "coder", "2");
    assert_eq!(reply, "Invalid number. 1 sessions total.");
    // By the start of its id, any session of the key can be resumed.
    assert_eq!(cmd_resume(&mut mgr, "key", "coder", "kkkk"), "Switched to: k [kkkkkkkk]");
    assert_eq!(mgr.get_or_create("key").id, k);
}
