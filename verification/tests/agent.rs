use agentbridge::agent::{
    attached_file_name, attachment_dir, attachment_message, auto_approves, base64_encode,
    ext_from_mime, image_file_name, line_for, parse_assistant_message, permission_response,
    read_line, read_message, retries_fresh, summarize_tool_input, text_part, user_message,
    ClaudeAgent, LineRead, SavedImage, Shutdown, ShutdownAction,
};
use agentbridge::config::AgentConfig;
use agentbridge::message::AgentEvent;
use agentbridge::session::CONTINUE_SESSION;
use serde_json::Value;

fn json(text: &str) -> Value {
    serde_json::from_str(text).unwrap()
}

#[test]
fn summarize_read_tool() {
    let input = json(r#"{"file_path": "/src/main.rs"}"#);
    assert_eq!(summarize_tool_input("Read", &input), "/src/main.rs");
}

#[test]
fn summarize_grep_tool() {
    let input = json(r#"{"pattern": "fn main"}"#);
    assert_eq!(summarize_tool_input("Grep", &input), "fn main");
}

#[test]
fn summarize_glob_tool() {
    let input = json(r#"{"pattern": "**/*.rs"}"#);
    assert_eq!(summarize_tool_input("Glob", &input), "**/*.rs");
}

#[test]
fn summarize_edit_tool() {
    let input = json(r#"{"file_path": "/src/lib.rs", "old_string": "x", "new_string": "y"}"#);
    assert_eq!(summarize_tool_input("Edit", &input), "/src/lib.rs");
}

#[test]
fn summarize_write_tool() {
    let input = json(r#"{"file_path": "/tmp/out.txt", "content": "hello"}"#);
    assert_eq!(summarize_tool_input("Write", &input), "/tmp/out.txt");
}

#[test]
fn summarize_bash_short() {
    let input = json(r#"{"command": "ls -la"}"#);
    assert_eq!(summarize_tool_input("Bash", &input), "ls -la");
}

#[test]
fn summarize_bash_long_truncates() {
    let long_cmd = "x".repeat(200);
    let input = json(&format!(r#"{{"command": "{}"}}"#, long_cmd));
    let summary = summarize_tool_input("Bash", &input);
    assert!(summary.len() <= 104); // 100 + "..."
    assert!(summary.ends_with("..."));
    assert_eq!(summary, format!("{}...", "x".repeat(100)));
}

#[test]
fn summarize_unknown_tool_json() {
    let input = json(r#"{"key": "value"}"#);
    let summary = summarize_tool_input("CustomTool", &input);
    assert_eq!(summary, r#"{"key":"value"}"#);
}

#[test]
fn summarize_unknown_tool_truncates_long_json() {
    let long_val = "v".repeat(300);
    let input = json(&format!(r#"{{"key": "{}"}}"#, long_val));
    let summary = summarize_tool_input("CustomTool", &input);
    assert!(summary.len() <= 204); // 200 + "..."
    assert!(summary.ends_with("..."));
}

#[test]
fn summarize_path_that_is_no_text_falls_back_to_json() {
    // A `file_path` of another kind hides the `pattern`.
    let input = json(r#"{"file_path": 3, "pattern": "x"}"#);
    assert_eq!(summarize_tool_input("Grep", &input), r#"{"file_path":3,"pattern":"x"}"#);
}

#[test]
fn base64_encode_works() {
    assert_eq!(base64_encode(b""), "");
    assert_eq!(base64_encode(b"f"), "Zg==");
    assert_eq!(base64_encode(b"fo"), "Zm8=");
    assert_eq!(base64_encode(b"foo"), "Zm9v");
    assert_eq!(base64_encode(b"Hello, World!"), "SGVsbG8sIFdvcmxkIQ==");
}

#[test]
fn base64_uses_the_whole_alphabet() {
    assert_eq!(base64_encode(&[0xfb, 0xff, 0xbf]), "+/+/");
    assert_eq!(base64_encode(&[0, 0x10, 0x83]), "ABCD");
    assert_eq!(base64_encode(&[0xd3, 0x5d, 0xb7]), "0123");
    assert_eq!(base64_encode(&[0; 7]).len(), 12);
}

#[test]
fn parse_assistant_text() {
    let raw = json(
        r#"{"type": "assistant", "message": {"content": [{"type": "text", "text": "Hello"}]}}"#,
    );
    let events = parse_assistant_message(&raw).unwrap();
    assert_eq!(events.len(), 1);
    match &events[0] {
        AgentEvent::Text { content } => assert_eq!(content, "Hello"),
        _ => panic!("expected Text event"),
    }
}

#[test]
fn parse_assistant_thinking() {
    let raw = json(
        r#"{"type": "assistant", "message": {"content": [{"type": "thinking", "thinking": "Let me think..."}]}}"#,
    );
    let events = parse_assistant_message(&raw).unwrap();
    assert_eq!(events.len(), 1);
    match &events[0] {
        AgentEvent::Thinking { content } => assert_eq!(content, "Let me think..."),
        _ => panic!("expected Thinking event"),
    }
}

#[test]
fn parse_assistant_tool_use() {
    let raw = json(
        r#"{"type": "assistant", "message": {"content": [
            {"type": "tool_use", "id": "tu_123", "name": "Read", "input": {"file_path": "/tmp/test.rs"}}
        ]}}"#,
    );
    let events = parse_assistant_message(&raw).unwrap();
    assert_eq!(events.len(), 1);
    match &events[0] {
        AgentEvent::ToolUse { id, tool, input } => {
            assert_eq!(id, "tu_123");
            assert_eq!(tool, "Read");
            assert_eq!(input, "/tmp/test.rs");
        }
        _ => panic!("expected ToolUse event"),
    }
}

#[test]
fn parse_assistant_skips_ask_user() {
    let raw = json(
        r#"{"type": "assistant", "message": {"content": [
            {"type": "tool_use", "id": "tu_456", "name": "AskUserQuestion", "input": {"question": "what?"}}
        ]}}"#,
    );
    let events = parse_assistant_message(&raw);
    assert!(events.is_none());
}

#[test]
fn parse_assistant_empty_text_skipped() {
    let raw = json(
        r#"{"type": "assistant", "message": {"content": [{"type": "text", "text": ""}]}}"#,
    );
    let events = parse_assistant_message(&raw);
    assert!(events.is_none());
}

#[test]
fn parse_assistant_mixed_content() {
    let raw = json(
        r#"{"type": "assistant", "message": {"content": [
            {"type": "thinking", "thinking": "hmm"},
            {"type": "text", "text": "Here you go"},
            {"type": "tool_use", "id": "tu_789", "name": "Bash", "input": {"command": "echo hi"}}
        ]}}"#,
    );
    let events = parse_assistant_message(&raw).unwrap();
    assert_eq!(events.len(), 3);
    assert!(matches!(&events[0], AgentEvent::Thinking { .. }));
    assert!(matches!(&events[1], AgentEvent::Text { .. }));
    assert!(matches!(&events[2], AgentEvent::ToolUse { .. }));
}

#[test]
fn claude_agent_build_args_defaults() {
    let agent = ClaudeAgent::new(
        "/work".to_string(),
        AgentConfig::default(),
        "test-proj".to_string(),
    );
    let args = agent.build_args(None, None, "default", "/work");

    assert!(args.contains(&"--output-format".to_string()));
    assert!(args.contains(&"stream-json".to_string()));
    assert!(args.contains(&"--input-format".to_string()));
    assert!(args.contains(&"--permission-prompt-tool".to_string()));
    assert!(args.contains(&"stdio".to_string()));
    assert!(args.contains(&"--verbose".to_string()));
    assert!(args.contains(&"--max-turns".to_string()));
    assert!(args.contains(&"50".to_string()));
    // No --permission-mode for "default"
    assert!(!args.contains(&"--permission-mode".to_string()));
    // No --model
    assert!(!args.contains(&"--model".to_string()));
    // No --resume
    assert!(!args.contains(&"--resume".to_string()));
}

#[test]
fn claude_agent_build_args_with_overrides() {
    let config = AgentConfig {
        mode: "default".to_string(),
        model: None,
        allowed_tools: vec!["Bash".to_string(), "Read".to_string()],
        max_turns: Some(10),
    };
    let agent = ClaudeAgent::new("/work".to_string(), config, "proj".to_string());
    let args = agent.build_args(
        Some("sess-123"),
        Some("coder-sonnet-4-20250514"),
        "yolo",
        "/other",
    );

    // Max turns from config
    let mt_idx = args.iter().position(|a| a == "--max-turns").unwrap();
    assert_eq!(args[mt_idx + 1], "10");

    // Permission mode: yolo -> bypassPermissions
    let pm_idx = args.iter().position(|a| a == "--permission-mode").unwrap();
    assert_eq!(args[pm_idx + 1], "bypassPermissions");

    // Model
    let m_idx = args.iter().position(|a| a == "--model").unwrap();
    assert_eq!(args[m_idx + 1], "coder-sonnet-4-20250514");

    // Resume
    let r_idx = args.iter().position(|a| a == "--resume").unwrap();
    assert_eq!(args[r_idx + 1], "sess-123");

    // Allowed tools
    let at_idx = args.iter().position(|a| a == "--allowedTools").unwrap();
    assert_eq!(args[at_idx + 1], "Bash,Read");

    // System prompt contains project and work dir
    let sp_idx = args.iter().position(|a| a == "--append-system-prompt").unwrap();
    let sp = &args[sp_idx + 1];
    assert!(sp.contains("proj"));
    assert!(sp.contains("/other"));
    assert!(sp.ends_with("## Project\nName: proj\nWork directory: /other"));
}

#[test]
fn claude_agent_build_args_continue_session() {
    let agent = ClaudeAgent::new(
        "/work".to_string(),
        AgentConfig::default(),
        "test-proj".to_string(),
    );
    let args = agent.build_args(Some(CONTINUE_SESSION), None, "default", "/work");

    // __continue__ should use --continue --fork-session, not --resume
    assert!(args.contains(&"--continue".to_string()));
    assert!(args.contains(&"--fork-session".to_string()));
    assert!(!args.contains(&"--resume".to_string()));
}

#[test]
fn claude_agent_build_args_empty_session_id_no_resume() {
    let agent = ClaudeAgent::new(
        "/work".to_string(),
        AgentConfig::default(),
        "test-proj".to_string(),
    );
    let args = agent.build_args(Some(""), None, "default", "/work");

    // Empty session ID should not resume
    assert!(!args.contains(&"--resume".to_string()));
    assert!(!args.contains(&"--continue".to_string()));
}

#[test]
fn claude_agent_chooses_the_work_directory() {
    let agent = ClaudeAgent::new("/work".to_string(), AgentConfig::default(), "p".to_string());
    assert_eq!(agent.effective_work_dir(None), "/work");
    assert_eq!(agent.effective_work_dir(Some("/else")), "/else");
    assert!(retries_fresh(Some("sess")));
    assert!(!retries_fresh(None));
}

#[test]
fn modes_that_approve_everything() {
    assert!(auto_approves("yolo"));
    assert!(auto_approves("auto"));
    assert!(auto_approves("bypassPermissions"));
    assert!(!auto_approves("default"));
    assert!(!auto_approves("plan"));
}

#[test]
fn extensions_of_mime_types() {
    assert_eq!(ext_from_mime("image/png"), ".png");
    assert_eq!(ext_from_mime("image/jpg"), ".jpg");
    assert_eq!(ext_from_mime("application/pdf"), ".pdf");
    assert_eq!(ext_from_mime("video/mp4"), "");
}

#[test]
fn attachment_names() {
    assert_eq!(attachment_dir("/w"), "/w/.agentbridge/attachments");
    assert_eq!(attachment_dir("/w/"), "/w/.agentbridge/attachments");
    assert_eq!(image_file_name(1700000000123, 2, "image/gif"), "img_1700000000123_2.gif");
    assert_eq!(attached_file_name(-5, 0, ""), "file_-5_file_0");
    assert_eq!(attached_file_name(7, 0, "a.txt"), "file_7_a.txt");
}

#[test]
fn messages_on_the_wire() {
    assert_eq!(
        user_message("hi"),
        json(r#"{"type":"user","message":{"role":"user","content":"hi"}}"#)
    );
    let line = line_for(&user_message("a\nb"));
    assert!(line.ends_with("\n"));
    assert_eq!(line.matches('\n').count(), 1);
    assert_eq!(
        permission_response("r1", true),
        json(
            r#"{"type":"control_response","response":{"subtype":"success","request_id":"r1",
               "response":{"behavior":"allow","updatedInput":{}}}}"#
        )
    );
    assert_eq!(
        permission_response("r2", false)["response"]["response"]["message"],
        "Permission denied by user."
    );
}

#[test]
fn attachments_become_blocks() {
    let image = SavedImage {
        path: "/w/img.png".to_string(),
        mime_type: "".to_string(),
        data: b"foo".to_vec(),
    };
    let msg = attachment_message("", &vec![image], &vec!["/w/f.txt".to_string()]);
    let content = &msg["message"]["content"];
    assert_eq!(content[0]["source"]["media_type"], "image/png");
    assert_eq!(content[0]["source"]["data"], "Zm9v");
    assert_eq!(
        content[1]["text"],
        "Please analyze the attached file(s).\n\n(Images also saved locally: /w/img.png)\n\n(Files saved locally, please read them: /w/f.txt)"
    );
    assert_eq!(text_part("", &vec![], &vec![]), "Please analyze the attached image(s).");
    assert_eq!(text_part("look", &vec![], &vec![]), "look");
}

fn only_event(read: LineRead) -> AgentEvent {
    assert_eq!(read.events.len(), 1);
    read.events.into_iter().next().unwrap()
}

#[test]
fn reads_the_handshake() {
    let read = read_line(
        r#"{"type":"system","session_id":"s1","tools":["Bash",3,"Read"],"skills":[]}"#,
        false,
    );
    assert_eq!(read.session_id.as_deref(), Some("s1"));
    match only_event(read) {
        AgentEvent::System { session_id, tools, skills } => {
            assert_eq!(session_id, "s1");
            assert_eq!(tools, vec!["Bash".to_string(), "Read".to_string()]);
            assert!(skills.is_empty());
        }
        _ => panic!("expected System event"),
    }
}

#[test]
fn reads_the_result() {
    let read = read_line(
        r#"{"type":"result","result":"done","session_id":"","usage":{"input_tokens":4294967301,"output_tokens":7}}"#,
        false,
    );
    assert!(read.session_id.is_none());
    match only_event(read) {
        AgentEvent::Result { content, session_id, input_tokens, output_tokens } => {
            assert_eq!(content, "done");
            assert_eq!(session_id, "");
            // Counts are kept in 32 bits.
            assert_eq!(input_tokens, 5);
            assert_eq!(output_tokens, 7);
        }
        _ => panic!("expected Result event"),
    }
}

#[test]
fn permission_requests_are_asked_or_granted() {
    let line = r#"{"type":"control_request","request_id":"r9","request":{"subtype":"can_use_tool","tool_name":"Bash","input":{"command":"ls"}}}"#;
    let asked = read_line(line, false);
    assert!(asked.responses.is_empty());
    match only_event(asked) {
        AgentEvent::PermissionRequest { request_id, tool, input, options } => {
            assert_eq!(request_id, "r9");
            assert_eq!(tool, "Bash");
            assert_eq!(input["command"], "ls");
            assert!(options.is_empty());
        }
        _ => panic!("expected PermissionRequest event"),
    }
    let granted = read_line(line, true);
    assert_eq!(granted.responses, vec![permission_response("r9", true)]);
    match only_event(granted) {
        AgentEvent::ToolUse { id, tool, input } => {
            assert_eq!(id, "r9");
            assert_eq!(tool, "Bash");
            assert_eq!(input, "ls");
        }
        _ => panic!("expected ToolUse event"),
    }
    let other = read_line(r#"{"type":"control_request","request":{"subtype":"hook"}}"#, true);
    assert!(other.events.is_empty() && other.responses.is_empty());
}

#[test]
fn reads_errors_and_passes_over_the_rest() {
    match only_event(read_line(r#"{"type":"error","error":{"message":"bad"}}"#, false)) {
        AgentEvent::Error { message } => assert_eq!(message, "bad"),
        _ => panic!("expected Error event"),
    }
    match only_event(read_line(r#"{"type":"error","message":"worse"}"#, false)) {
        AgentEvent::Error { message } => assert_eq!(message, "worse"),
        _ => panic!("expected Error event"),
    }
    match only_event(read_message(&json(r#"{"type":"error"}"#), false)) {
        AgentEvent::Error { message } => assert_eq!(message, "unknown error"),
        _ => panic!("expected Error event"),
    }
    assert!(read_line("", false).events.is_empty());
    assert!(read_line("not json", false).events.is_empty());
    assert!(read_line(r#"{"type":"user"}"#, false).events.is_empty());
}

#[test]
fn shutdown_escalates() {
    let (closing, first) = Shutdown::begin();
    assert_eq!(first, ShutdownAction::CloseInput);
    assert_eq!(closing.wait_secs(), 120);
    assert_eq!(closing.next(true), (Shutdown::Gone, None));
    let (terminating, second) = closing.next(false);
    assert_eq!(second, Some(ShutdownAction::Terminate));
    assert_eq!(terminating.wait_secs(), 5);
    assert_eq!(terminating.next(true), (Shutdown::Gone, None));
    assert_eq!(terminating.next(false), (Shutdown::Gone, Some(ShutdownAction::Kill)));
}
