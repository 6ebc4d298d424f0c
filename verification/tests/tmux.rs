use agentbridge::config::TmuxConfig;
use agentbridge::message::AgentEvent;
use agentbridge::tmux::{
    call_error, capture_args, close_steps, contains_permission_prompt, contains_selection_menu,
    creation_error, dead_session_error, escape_for_tmux, extract_permission_menu,
    extract_reply_blocks, extract_selection_menu, find_question, has_session_args,
    interrupt_step, is_block_boundary, is_done_footer, is_footer, is_meta_text, is_prompt_text,
    is_ready, is_reply_start, is_tool_call_block, keycap, live_status, menu_from,
    new_session_args, on_launch, parse_option_line, permission_id, permission_key,
    screen_is_busy, send_key_args, send_keys_args, send_raw_keys_args, should_emit_heartbeat,
    CloseStep, Launch, Missing, Poll, Start, TmuxAgent,
};

fn screen(lines: &[&str]) -> Vec<String> {
    lines.iter().map(|s| s.to_string()).collect()
}

// A chooser as it is captured; the cursor sits on an option line, not in an
// input box.
fn selection_menu_screen(cursor_on: usize) -> Vec<String> {
    let opts = [
        "分层(推荐)",
        "只留空否决",
        "全留空",
        "全预填",
        "Type something.",
    ];
    let mut v = vec![
        "  先确认两件需要你拍板的事，再动手：".to_string(),
        "──────────────────────────────".to_string(),
        "←  ☐ 预填策略  ☐ 谁来写  ✔ Submit  →".to_string(),
        "".to_string(),
        "decide_prefill 的预填策略用哪个?".to_string(),
        "".to_string(),
    ];
    for (i, o) in opts.iter().enumerate() {
        let marker = if i == cursor_on { "❯ " } else { "  " };
        v.push(format!("{}{}. {}", marker, i + 1, o));
    }
    v.push("──────────────────────────────".to_string());
    v.push("Enter to select · Tab/Arrow keys to navigate · Esc to cancel".to_string());
    v
}


#[test]
fn busy_detects_legacy_esc_hint() {
    let s = screen(&["  some output", "✳ Working… (esc to interrupt)", "❯ "]);
    assert!(screen_is_busy(&s));
}

#[test]
fn busy_detects_bare_spinner_status_line() {
    let s = screen(&[
        "❯ 现在怎么样了",
        "✽ Zigzagging…",
        "                    100% context used",
        "──────────────────────────",
        "❯ ",
        "──────────────────────────",
        "  [AIDLC] ready | opus-4-8 ctx:100%",
        "  ⏵⏵ bypass permissions on (shift+tab to cycle) · ← for agents",
    ]);
    assert!(screen_is_busy(&s), "live spinner status line must read as busy");
}

#[test]
fn done_footer_is_not_busy() {
    let s = screen(&[
        "✻ Brewed for 56s",
        "──────────────────────────",
        "❯ ",
        "──────────────────────────",
        "  ⏵⏵ bypass permissions on (shift+tab to cycle) · ← for agents",
    ]);
    assert!(!screen_is_busy(&s));
}

#[test]
fn spinner_text_deep_in_scrollback_is_not_busy() {
    let mut lines: Vec<String> = vec!["✻ pondering…".to_string()];
    for i in 0..30 {
        lines.push(format!("  reply prose line {}", i));
    }
    lines.push("❯ ".to_string());
    lines.push("  ⏵⏵ bypass permissions on".to_string());
    assert!(!screen_is_busy(&lines));
}

#[test]
fn hook_mode_gates_off_heartbeat() {
    assert!(!should_emit_heartbeat(true));
    assert!(should_emit_heartbeat(false));
}

#[test]
fn detects_selection_menu_but_not_as_permission() {
    let screen = selection_menu_screen(0);
    assert!(contains_selection_menu(&screen), "should detect the chooser");
    assert!(!contains_permission_prompt(&screen.join("\n")));
}

#[test]
fn selection_menu_extract_is_cursor_position_independent() {
    let a = extract_selection_menu(&selection_menu_screen(0));
    let b = extract_selection_menu(&selection_menu_screen(3));
    assert_eq!(a, b, "menu text must be stable across cursor moves");
    assert!(a.contains("\u{2753}"), "question header present: {a}");
    assert!(a.contains("decide_prefill 的预填策略用哪个?"), "got: {a}");
    assert!(a.contains("1\u{fe0f}\u{20e3}"), "option 1 keycap: {a}");
    assert!(a.contains("**分层(推荐)**"), "option text bold: {a}");
    assert!(a.contains("\u{1f4ac} 直接回复序号选择"), "reply hint: {a}");
    assert!(!a.contains('❯'));
    assert!(!a.contains("Enter to select"));
    assert!(!a.contains("──"));
    assert!(!a.contains("Submit"), "tab strip dropped: {a}");
}

#[test]
fn ordinary_prose_is_not_a_selection_menu() {
    let lines: Vec<String> = [
        "我建议的执行顺序：先 Step 1，再 Step 2。",
        "1. 这是一个普通的列表项，不是菜单",
    ]
    .iter()
    .map(|s| s.to_string())
    .collect();
    assert!(!contains_selection_menu(&lines));
}

#[test]
fn escape_for_tmux_handles_special_chars() {
    assert_eq!(escape_for_tmux("hello"), "hello");
    assert_eq!(escape_for_tmux("a;b"), "a;b");
    assert_eq!(escape_for_tmux("a\\b"), "a\\b");
    assert_eq!(escape_for_tmux("he said \"hi\""), "he said \"hi\"");
    assert_eq!(escape_for_tmux("echo $HOME"), "echo $HOME");
    assert_eq!(escape_for_tmux("`cmd`"), "`cmd`");
}

fn sample_screen() -> Vec<String> {
    [
        "~/warren_ws",
        "❯ coder",
        " ▐▛███▜▌   Coder Code v2.1.183",
        "  ▘▘ ▝▝    ~/warren_ws",
        "❯ 你好",
        "",
        "⏺ 你好！👋",
        "",
        "  有什么可以帮你的吗?我可以帮你处理:",
        "",
        "  - 写代码 / 调试 — 新功能、修 bug",
        "  - 看代码 / Review — 代码审查",
        "",
        "  你现在在做什么?直接告诉我就行 😊",
        "",
        "✻ Worked for 6s",
        "────────────────────────",
        "❯ ",
        "────────────────────────",
        "  ? for shortcuts · ← for agents",
    ]
    .iter()
    .map(|s| s.to_string())
    .collect()
}

#[test]
fn extract_reply_blocks_pulls_clean_reply() {
    let blocks = extract_reply_blocks(&sample_screen());
    assert_eq!(blocks.len(), 1, "exactly one ⏺ block expected");
    let b = &blocks[0];
    assert!(b.starts_with("你好！👋"), "got: {b}");
    assert!(b.contains("有什么可以帮你的吗"));
    assert!(b.contains("- 写代码 / 调试"));
    assert!(b.contains("直接告诉我就行 😊"));
    assert!(!b.contains("⏺"));
    assert!(!b.contains("Worked for"));
    assert!(!b.contains("─"));
    assert!(!b.contains("❯"));
    assert!(!b.contains("for shortcuts"));
    assert!(!b.contains("Coder Code v"));
}

#[test]
fn extract_reply_blocks_ignores_pure_chrome_screen() {
    let lines: Vec<String> = [
        "❯ 你好",
        "✢ Pontificating…",
        "────────",
        "❯ ",
        "  esc to interrupt",
    ]
    .iter()
    .map(|s| s.to_string())
    .collect();
    assert!(extract_reply_blocks(&lines).is_empty());
}

#[test]
fn extract_reply_blocks_dedup_is_stable_across_polls() {
    let a = extract_reply_blocks(&sample_screen());
    let b = extract_reply_blocks(&sample_screen());
    assert_eq!(a, b);
}

#[test]
fn extract_reply_blocks_skips_tool_calls() {
    let lines: Vec<String> = [
        "⏺ 让我拉一下当前状态",
        "⏺ Bash(cd /tmp && ls)",
        "  ⎿  {\"status\":\"ok\"}",
        "⏺ 系统状态全绿，进度如下：",
        "✻ Worked for 5s",
    ]
    .iter()
    .map(|s| s.to_string())
    .collect();
    let blocks = extract_reply_blocks(&lines);
    assert_eq!(blocks.len(), 2, "got: {blocks:?}");
    assert!(blocks[0].contains("让我拉一下"));
    assert!(blocks[1].contains("系统状态全绿"));
    assert!(!blocks.iter().any(|b| b.contains("Bash(")));
}

#[test]
fn is_tool_call_block_shape() {
    assert!(is_tool_call_block("Bash(cd /tmp)"));
    assert!(is_tool_call_block("Write(/a/b.txt)"));
    assert!(is_tool_call_block("Read(file)"));
    assert!(!is_tool_call_block("收到，消息正常打进来了 ✅"));
    assert!(!is_tool_call_block("能，而且签章这块修过了"));
    assert!(!is_tool_call_block("Hi! 👋 (ready)"));
}

#[test]
fn extract_reply_blocks_two_separate_replies() {
    let lines: Vec<String> = [
        "⏺ First reply",
        "✻ Brewed for 3s",
        "❯ next question",
        "⏺ Second reply",
        "✻ Worked for 2s",
    ]
    .iter()
    .map(|s| s.to_string())
    .collect();
    let blocks = extract_reply_blocks(&lines);
    assert_eq!(blocks, vec!["First reply", "Second reply"]);
}

#[test]
fn is_done_footer_matches_any_verb() {
    assert!(is_done_footer("✻ Cooked for 9s"));
    assert!(is_done_footer("✻ Brewed for 7s"));
    assert!(is_done_footer("✻ Worked for 6s"));
    assert!(is_done_footer("✢ Pontificating…"));
    assert!(is_done_footer("✽ Grooving…"));
    assert!(!is_done_footer("⏺ Hihi! 👋"));
    assert!(!is_done_footer("  - 写代码 / 调试"));
    assert!(!is_done_footer("你现在在做什么?"));
}

#[test]
fn extract_permission_menu_pulls_question_and_options() {
    let lines: Vec<String> = [
        "⏺ Write(/tmp/x.txt)",
        "────────",
        " Do you want to create x.txt?",
        " ❯ 1. Yes",
        "   2. Yes, allow all",
        "   3. No",
        " Esc to cancel · Tab to amend",
    ]
    .iter()
    .map(|s| s.to_string())
    .collect();
    let menu = extract_permission_menu(&lines);
    assert!(menu.contains("Do you want to create x.txt?"));
    assert!(menu.contains("1. Yes"));
    assert!(menu.contains("3. No"));
    assert!(!menu.contains("Esc to cancel"));
}

#[test]
fn contains_permission_prompt_detects_patterns() {
    let menu = "Do you want to make this edit?\n\
                ❯ 1. Yes\n\
                \x20 2. Yes, and don't ask again this session\n\
                \x20 3. No, and tell Coder what to do differently";
    assert!(contains_permission_prompt(menu));

    assert!(!contains_permission_prompt("I'll approve the PR for you."));
    assert!(!contains_permission_prompt(
        "you don't have permission to edit this file"
    ));
    assert!(!contains_permission_prompt("Hello world"));
}

#[test]
fn selection_menu_text_is_exact() {
    assert_eq!(
        extract_selection_menu(&selection_menu_screen(1)),
        "\u{2753} **先确认两件需要你拍板的事，再动手：**\ndecide_prefill 的预填策略用哪个?\n1\u{fe0f}\u{20e3} **分层(推荐)**\n2\u{fe0f}\u{20e3} **只留空否决**\n3\u{fe0f}\u{20e3} **全留空**\n4\u{fe0f}\u{20e3} **全预填**\n\n\u{1f4ac} 直接回复序号选择"
    );
    assert_eq!(extract_selection_menu(&screen(&["────", ""])), "");
    assert_eq!(
        extract_selection_menu(&screen(&["10. ten", "  more on ten", "Enter to select", "3. no"])),
        "• **ten**\n   · more on ten\n\n\u{1f4ac} 直接回复序号选择"
    );
}

#[test]
fn option_lines() {
    assert_eq!(parse_option_line("1. foo"), Some((1, "foo")));
    assert_eq!(parse_option_line("+2.  bar."), Some((2, "bar.")));
    assert_eq!(parse_option_line("x. foo"), None);
    assert_eq!(parse_option_line("no dot"), None);
    assert_eq!(parse_option_line("4294967296. big"), None);
    assert_eq!(parse_option_line("4294967295. big"), Some((4294967295, "big")));
    assert_eq!(keycap(9), Some("9\u{fe0f}\u{20e3}"));
    assert_eq!(keycap(0), None);
    assert_eq!(keycap(10), None);
}

#[test]
fn block_boundaries() {
    assert!(is_block_boundary("────╌╌"));
    assert!(is_block_boundary("  ❯ next"));
    assert!(is_block_boundary("✻ Worked for 6s"));
    assert!(!is_block_boundary("   "));
    assert!(!is_block_boundary("  indented prose"));
    assert!(is_reply_start("  ⏺ hi"));
    assert!(!is_reply_start("hi ⏺"));
}

#[test]
fn permission_menu_without_a_question_is_the_screen() {
    assert_eq!(extract_permission_menu(&screen(&["a ", " b"])), "a \n b");
}

#[test]
fn readiness_needs_banner_and_box() {
    let border = "─".repeat(21);
    assert!(is_ready(&screen(&[" Coder Code v2", &border]), "Coder Code v"));
    assert!(!is_ready(&screen(&[" Coder Code v2", "────"]), "Coder Code v"));
    assert!(!is_ready(&screen(&["shell", &border]), "Coder Code v"));
}

fn idle_screen(reply: &str) -> Vec<String> {
    screen(&[&format!("⏺ {}", reply), "✻ Worked for 6s", "❯ "])
}

fn busy() -> Vec<String> {
    screen(&["✽ Zigzagging…", "❯ "])
}

fn feed(mut poll: Poll, lines: &Vec<String>, times: usize) -> (Poll, Vec<AgentEvent>) {
    let mut told = Vec::new();
    for _ in 0..times {
        let (next, events) = poll.on_screen(lines, "id-1");
        poll = next;
        told.extend(events);
    }
    (poll, told)
}

fn texts(events: &[AgentEvent]) -> Vec<String> {
    events
        .iter()
        .filter_map(|e| match e {
            AgentEvent::Text { content } => Some(content.clone()),
            _ => None,
        })
        .collect()
}

fn results(events: &[AgentEvent]) -> usize {
    events.iter().filter(|e| matches!(e, AgentEvent::Result { .. })).count()
}

#[test]
fn a_turn_is_told_once_and_whole() {
    let start = Poll::new("s".to_string(), false, false, Some(idle_screen("old")));
    // Nothing ran yet: what is on the screen is not told.
    let (poll, told) = feed(start, &idle_screen("old"), 20);
    assert!(told.is_empty());
    let (poll, told) = feed(poll, &busy(), 3);
    assert!(told.is_empty());
    let (poll, told) = feed(poll, &idle_screen("new"), 6);
    assert!(told.is_empty());
    let (poll, told) = feed(poll, &idle_screen("new"), 1);
    assert_eq!(texts(&told), vec!["new".to_string()]);
    assert_eq!(results(&told), 1);
    // Settled screens after that tell nothing more.
    let (poll, told) = feed(poll, &idle_screen("new"), 30);
    assert!(told.is_empty());
    // The same reply again ends its turn, but is not told twice.
    let (poll, _) = feed(poll, &busy(), 1);
    let (_, told) = feed(poll, &idle_screen("new"), 10);
    assert!(texts(&told).is_empty());
    assert_eq!(results(&told), 1);
}

#[test]
fn a_changing_screen_is_not_settled() {
    let start = Poll::new("s".to_string(), false, false, None);
    let (mut poll, _) = feed(start, &busy(), 1);
    for i in 0..20 {
        let (next, told) = feed(poll, &idle_screen(&format!("part {}", i)), 5);
        assert!(told.is_empty());
        poll = next;
    }
    // White space at the ends of lines is no change.
    let padded: Vec<String> = idle_screen("part 19").iter().map(|l| format!("{}  ", l)).collect();
    let (_, told) = feed(poll, &padded, 2);
    assert_eq!(texts(&told), vec!["part 19".to_string()]);
}

#[test]
fn heartbeats_are_throttled() {
    let poll = Poll::new("s".to_string(), false, false, None);
    let (poll, told) = feed(poll, &busy(), 79);
    assert!(told.is_empty());
    let (poll, told) = feed(poll, &busy(), 1);
    assert_eq!(told.len(), 1);
    match &told[0] {
        AgentEvent::Thinking { content } => assert_eq!(content, "✽ Zigzagging…"),
        _ => panic!("expected Thinking event"),
    }
    // The same status is not told again.
    let (_, told) = feed(poll, &busy(), 80);
    assert!(told.is_empty());
    assert_eq!(live_status(&screen(&["nothing"])), "Working…");
}

#[test]
fn hooks_keep_the_screen_silent() {
    let poll = Poll::new("s".to_string(), false, true, None);
    let (poll, told) = feed(poll, &busy(), 80);
    assert_eq!(told.len(), 1);
    assert!(matches!(told[0], AgentEvent::Keepalive));
    let (poll, told) = feed(poll, &idle_screen("new"), 26);
    assert!(told.is_empty());
    let (poll, told) = feed(poll, &idle_screen("new"), 1);
    assert!(texts(&told).is_empty());
    assert_eq!(results(&told), 1);
    let (_, told) = feed(poll, &idle_screen("new"), 40);
    assert!(told.is_empty());
}

#[test]
fn menus_are_told_once() {
    let poll = Poll::new("s".to_string(), false, false, None);
    let (poll, told) = feed(poll, &selection_menu_screen(0), 5);
    assert_eq!(texts(&told).len(), 1);
    assert_eq!(results(&told), 1);
    // The cursor moves: nothing new.
    let (poll, told) = feed(poll, &selection_menu_screen(2), 5);
    assert!(told.is_empty());
    let ask = screen(&["Do you want to go on?", "❯ 1. Yes", "  3. No", "Esc to cancel"]);
    let (poll, told) = feed(poll, &ask, 3);
    assert_eq!(told.len(), 1);
    match &told[0] {
        AgentEvent::PermissionRequest { request_id, tool, input, .. } => {
            assert_eq!(request_id, "id-1");
            assert_eq!(tool, "tmux_permission");
            assert_eq!(input["prompt"], "Do you want to go on?\n❯ 1. Yes\n3. No");
        }
        _ => panic!("expected PermissionRequest event"),
    }
    // The turn after a permission menu ends although it told no text.
    let (poll, _) = feed(poll, &busy(), 1);
    let (_, told) = feed(poll, &screen(&["❯ "]), 8);
    assert_eq!(results(&told), 1);
}

#[test]
fn a_lost_session_is_restarted_once() {
    let poll = Poll::new("cc".to_string(), true, false, Some(idle_screen("old")));
    let (poll, todo) = poll.on_missing();
    assert!(matches!(todo, Missing::Restart));
    let (poll, error) = poll.on_restarted(Ok(()));
    assert!(error.is_none());
    let (poll, todo) = poll.on_missing();
    match todo {
        Missing::GiveUp(AgentEvent::Error { message }) => {
            assert_eq!(message, "tmux: session 'cc' no longer exists")
        }
        _ => panic!("expected an error"),
    }
    // What stood there before counts as new on the new screen.
    let (poll, _) = feed(poll, &busy(), 1);
    let (_, told) = feed(poll, &idle_screen("old"), 8);
    assert_eq!(texts(&told), vec!["old".to_string()]);
    let failed = Poll::new("cc".to_string(), true, false, None).on_missing().0;
    match failed.on_restarted(Err("boom".to_string())).1 {
        Some(AgentEvent::Error { message }) => {
            assert_eq!(message, "tmux: auto_restart of 'cc' failed: boom")
        }
        _ => panic!("expected an error"),
    }
}

#[test]
fn permission_ids_are_uuids() {
    let id = permission_id();
    assert!(id.starts_with("tmux-perm-"));
    assert_eq!(id.len(), 10 + 36);
    assert_ne!(id, permission_id());
}

fn agent(auto_start: bool) -> TmuxAgent {
    let config = TmuxConfig {
        session: "cc".to_string(),
        auto_start,
        auto_restart: true,
        hook_relay: false,
    };
    TmuxAgent::new("/work".to_string(), config, "proj".to_string())
}

#[test]
fn sessions_are_attached_or_created() {
    assert_eq!(agent(false).plan_start(true), Ok(Start::Attach));
    assert_eq!(agent(true).plan_start(true), Ok(Start::Attach));
    assert_eq!(agent(true).plan_start(false), Ok(Start::Create));
    assert_eq!(
        agent(false).plan_start(false),
        Err("tmux: session 'cc' does not exist and auto_start is disabled".to_string())
    );
    // A session that was there belongs to someone else, whatever is set up.
    assert!(!agent(true).plan_start(true).unwrap().owns_session());
    assert!(!agent(false).plan_start(true).unwrap().owns_session());
    assert!(agent(true).plan_start(false).unwrap().owns_session());
    assert_eq!(agent(true).session_name(), "cc");
    assert_eq!(agent(true).work_dir(), "/work");
    let (_, told) = feed(agent(true).poll(None), &busy(), 80);
    assert_eq!(told.len(), 1);
}

#[test]
fn attached_sessions_are_never_ended() {
    assert_eq!(close_steps(false, true), vec![CloseStep::Escape]);
    assert_eq!(close_steps(false, false), vec![]);
    assert_eq!(close_steps(true, true), vec![CloseStep::Exit, CloseStep::ControlC]);
    assert_eq!(interrupt_step(true), Some(CloseStep::Escape));
    assert_eq!(interrupt_step(false), None);
}

#[test]
fn calls_of_tmux() {
    assert_eq!(has_session_args("cc"), vec!["has-session", "-t", "cc"]);
    assert_eq!(
        new_session_args("cc", "/w"),
        vec!["new-session", "-d", "-s", "cc", "-x", "120", "-y", "40", "-c", "/w"]
    );
    assert_eq!(send_keys_args("cc", "-x $A"), vec!["send-keys", "-t", "cc", "--", "-x $A", "Enter"]);
    assert_eq!(send_raw_keys_args("cc", "1"), vec!["send-keys", "-t", "cc", "1", "Enter"]);
    assert_eq!(send_key_args("cc", "Escape"), vec!["send-keys", "-t", "cc", "Escape"]);
    assert_eq!(capture_args("cc"), vec!["capture-pane", "-t", "cc", "-p", "-S", "-100"]);
    assert_eq!(permission_key(true), "1");
    assert_eq!(permission_key(false), "3");
    assert_eq!(call_error("tmux send-keys", " oops \n"), "tmux send-keys failed: oops");
    assert_eq!(creation_error("cc", false, "x"), "tmux: failed to create session 'cc': x");
    assert_eq!(creation_error("cc", true, "x"), "tmux: failed to recreate session 'cc': x");
    assert_eq!(dead_session_error("cc"), "tmux: session 'cc' is not alive");
}

#[test]
fn a_footer_counts_seconds() {
    assert!(!is_done_footer("? for shortcuts · ← for agents"));
    assert!(!is_done_footer("✻ Cooked for s"));
    assert!(!is_done_footer("✻ Cooked for 9m"));
    assert!(is_done_footer("  ✻ Waited for it for 120s  "));
    assert!(is_footer("✻ Cooked for 9s", false));
    assert!(!is_footer("Cooked for 9s", true));
    assert!(is_footer("? Thinking...", false));
}

#[test]
fn unindented_text_ends_a_block() {
    assert!(is_block_boundary("unindented prose"));
    assert!(is_block_boundary(" one space"));
    assert!(!is_block_boundary("  two spaces"));
    let lines = screen(&["⏺ Hello", "  there", "", "  friend", "? for shortcuts", "  tail"]);
    assert_eq!(extract_reply_blocks(&lines), vec!["Hello\nthere\n\nfriend".to_string()]);
}

#[test]
fn blank_lines_below_change_nothing() {
    let mut lines = sample_screen();
    lines.push("⏺ Last words".to_string());
    let blocks = extract_reply_blocks(&lines);
    lines.extend(screen(&["", "   ", "\t", ""]));
    assert_eq!(extract_reply_blocks(&lines), blocks);
}

#[test]
fn lowercase_texts_of_menus() {
    assert!(is_prompt_text("do you want to run it?\n1. yes\n2. maybe"));
    assert!(!is_prompt_text("1. yes\n2. maybe"));
    assert!(is_meta_text("type something."));
    assert!(!is_meta_text("full type something"));
    let lines = screen(&["text", "DO YOU WANT TO go on?", " 1. Yes ", "", "Esc to cancel"]);
    let lower: Vec<String> = lines.iter().map(|l| l.to_lowercase()).collect();
    assert_eq!(find_question(&lower), 1);
    assert_eq!(find_question(&screen(&["none"])), 1);
    assert_eq!(menu_from(&lines, 1), "DO YOU WANT TO go on?\n1. Yes");
    assert_eq!(menu_from(&lines, 1), extract_permission_menu(&lines));
    assert_eq!(menu_from(&screen(&["a", "b"]), 2), "a\nb");
}

#[test]
fn a_started_program_is_waited_for() {
    let border = "─".repeat(30);
    let ready = Some(screen(&["Coder Code v2", &border]));
    let shell = Some(screen(&["$"]));
    assert_eq!(on_launch(&ready, "Coder Code v", 0), Launch::Ready);
    assert_eq!(on_launch(&ready, "Coder Code v", 20_000), Launch::Ready);
    assert_eq!(on_launch(&shell, "Coder Code v", 19_999), Launch::Again);
    assert_eq!(on_launch(&None, "Coder Code v", 20_000), Launch::GivenUp);
    assert_eq!(Launch::Ready.pause_ms(), 300);
    assert_eq!(Launch::Again.pause_ms(), 250);
    assert_eq!(Launch::GivenUp.pause_ms(), 0);
}

#[test]
fn what_stands_on_the_screen_is_not_told() {
    let first = idle_screen("Old words");
    let (poll, told) = feed(agent(true).poll(Some(first.clone())), &first, 20);
    assert!(told.is_empty());
    let (poll, _) = feed(poll, &busy(), 1);
    let (_, told) = feed(poll, &idle_screen("New words"), 20);
    assert_eq!(texts(&told), vec!["New words".to_string()]);
}
