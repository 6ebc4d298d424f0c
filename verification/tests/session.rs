use agentbridge::clock::Timestamp;
use agentbridge::feishu::FeishuReplyCtx;
use agentbridge::platform::ReplyTarget;
use agentbridge::session::{
    encode_work_dir, InteractiveState, Locks, PersistedState, QueuedMessage, Session,
    SessionData, SessionManager, CONTINUE_SESSION, MAX_QUEUED_MESSAGES,
};
use agentbridge::table::Table;

#[test]
fn try_lock_succeeds_when_not_busy() {
    let mut locks = Locks::new();
    let session = Session::new(&mut locks, None);
    assert!(!session.is_busy(&locks));

    let guard = session.try_lock(&mut locks);
    assert!(guard.is_some());
    assert!(session.is_busy(&locks));
}

#[test]
fn try_lock_fails_when_already_locked() {
    let mut locks = Locks::new();
    let session = Session::new(&mut locks, None);
    let _guard = session.try_lock(&mut locks).unwrap();

    // Second lock attempt should fail
    let second = session.try_lock(&mut locks);
    assert!(second.is_none());
    assert!(session.is_busy(&locks));
}

#[test]
fn drop_guard_releases_lock() {
    let mut locks = Locks::new();
    let session = Session::new(&mut locks, None);

    {
        let guard = session.try_lock(&mut locks).unwrap();
        assert!(session.is_busy(&locks));
        guard.release(&mut locks);
    }
    // Guard given back
    assert!(!session.is_busy(&locks));

    // Can re-acquire
    let guard2 = session.try_lock(&mut locks);
    assert!(guard2.is_some());
}

#[test]
fn guard_provides_session_access() {
    let mut locks = Locks::new();
    let session = Session::new(&mut locks, Some("test-session".to_string()));
    let guard = session.try_lock(&mut locks).unwrap();
    assert_eq!(guard.session().name.as_deref(), Some("test-session"));
}

#[test]
fn locks_of_sessions_are_their_own() {
    let mut locks = Locks::new();
    let a = Session::new(&mut locks, None);
    let b = Session::new(&mut locks, None);
    assert!(a.try_lock_explicit(&mut locks));
    assert!(!b.is_busy(&locks));
    // A copy shares the lock.
    let copy = a.share();
    assert!(!copy.try_lock_explicit(&mut locks));
    copy.unlock(&mut locks);
    assert!(!a.is_busy(&locks));
}

fn make_queued_message(text: &str) -> QueuedMessage {
    QueuedMessage {
        text: text.to_string(),
        images: vec![],
        files: vec![],
        voice: None,
        from: "test-user".to_string(),
        reply_ctx: ReplyTarget::Feishu(FeishuReplyCtx {
            chat_id: "test".to_string(),
            message_id: None,
        }),
    }
}

#[test]
fn queue_message_accepts_up_to_limit() {
    let mut locks = Locks::new();
    let session = Session::new(&mut locks, None);
    let mut state = InteractiveState::new(session);

    for i in 0..MAX_QUEUED_MESSAGES {
        let msg = make_queued_message(&format!("msg-{}", i));
        assert!(state.queue_message(msg));
    }

    assert_eq!(state.queue_len(), MAX_QUEUED_MESSAGES);

    // Next message should be rejected
    let overflow = make_queued_message("overflow");
    assert!(!state.queue_message(overflow));
}

#[test]
fn drain_next_returns_fifo_order() {
    let mut locks = Locks::new();
    let session = Session::new(&mut locks, None);
    let mut state = InteractiveState::new(session);

    state.queue_message(make_queued_message("first"));
    state.queue_message(make_queued_message("second"));
    state.queue_message(make_queued_message("third"));

    assert_eq!(state.drain_next().unwrap().text, "first");
    assert_eq!(state.drain_next().unwrap().text, "second");
    assert_eq!(state.drain_next().unwrap().text, "third");
    assert!(state.drain_next().is_none());
}

#[test]
fn drain_frees_queue_capacity() {
    let mut locks = Locks::new();
    let session = Session::new(&mut locks, None);
    let mut state = InteractiveState::new(session);

    // Fill the queue
    for i in 0..MAX_QUEUED_MESSAGES {
        state.queue_message(make_queued_message(&format!("msg-{}", i)));
    }
    assert!(!state.queue_message(make_queued_message("reject")));

    // Drain one, should have room for one more
    state.drain_next();
    assert!(state.queue_message(make_queued_message("new")));
}

fn make_manager() -> SessionManager {
    SessionManager::new("coder".to_string())
}

#[test]
fn get_or_create_returns_same_session() {
    let mut mgr = make_manager();
    let s1 = mgr.get_or_create("user:alice");
    let s2 = mgr.get_or_create("user:alice");
    assert_eq!(s1.id, s2.id);
}

#[test]
fn set_work_dir_as_first_action_persists() {
    let mut mgr = make_manager();
    let key = "discord:brand-new-channel";
    assert!(mgr.get_work_dir(key).is_none(), "precondition: no session yet");

    mgr.set_work_dir(key, "/Users/me/Documents/project-x");

    assert_eq!(
        mgr.get_work_dir(key).as_deref(),
        Some("/Users/me/Documents/project-x"),
        "work_dir set before any session existed must persist"
    );
}

#[test]
fn different_keys_get_different_sessions() {
    let mut mgr = make_manager();
    let s1 = mgr.get_or_create("user:alice");
    let s2 = mgr.get_or_create("user:bob");
    assert_ne!(s1.id, s2.id);
}

#[test]
fn new_session_creates_fresh_and_becomes_active() {
    let mut mgr = make_manager();
    let s1 = mgr.get_or_create("user:alice");
    let s2 = mgr.new_session("user:alice", Some("second".to_string()));
    assert_ne!(s1.id, s2.id);
    assert_eq!(s2.name.as_deref(), Some("second"));

    // Active session should now be s2
    let active = mgr.get_or_create("user:alice");
    assert_eq!(active.id, s2.id);
}

#[test]
fn list_returns_sessions_for_key_only() {
    let mut mgr = make_manager();
    mgr.get_or_create("user:alice");
    mgr.new_session("user:alice", Some("s2".to_string()));
    mgr.get_or_create("user:bob");

    assert_eq!(mgr.list("user:alice").len(), 2);
    assert_eq!(mgr.list("user:bob").len(), 1);
}

#[test]
fn switch_session_changes_active() {
    let mut mgr = make_manager();
    let s1 = mgr.get_or_create("user:alice");
    let _s2 = mgr.new_session("user:alice", None);

    // Switch back to s1
    let switched = mgr.switch_session("user:alice", &s1.id);
    assert!(switched.is_some());
    assert_eq!(switched.unwrap().id, s1.id);

    let active = mgr.get_or_create("user:alice");
    assert_eq!(active.id, s1.id);
}

#[test]
fn switch_session_rejects_cross_key() {
    let mut mgr = make_manager();
    let _s1 = mgr.get_or_create("user:alice");
    let s2 = mgr.get_or_create("user:bob");

    let cross = mgr.switch_session("user:alice", &s2.id);
    assert!(cross.is_none());
}

#[test]
fn delete_session_removes_it() {
    let mut mgr = make_manager();
    let s1 = mgr.get_or_create("user:alice");
    mgr.delete_session("user:alice", &s1.id);

    assert_eq!(mgr.list("user:alice").len(), 0);

    // A new get_or_create should produce a different session
    let s2 = mgr.get_or_create("user:alice");
    assert_ne!(s2.id, s1.id);
}

#[test]
fn work_dir_get_set() {
    let mut mgr = make_manager();
    mgr.get_or_create("user:alice");

    assert_eq!(mgr.get_work_dir("user:alice"), None);

    mgr.set_work_dir("user:alice", "/tmp/custom");
    assert_eq!(mgr.get_work_dir("user:alice"), Some("/tmp/custom".to_string()));
}

/// A manager with what another one saved.
fn reloaded(mgr: &SessionManager) -> SessionManager {
    let mut next = SessionManager::new("coder".to_string());
    next.load_state(mgr.persist());
    next
}

#[test]
fn persistence_survives_reload() {
    let session_id;
    let mut mgr = make_manager();
    let s = mgr.new_session("user:alice", Some("persist-test".to_string()));
    session_id = s.id.clone();

    // Reload what was saved
    let mut mgr2 = reloaded(&mgr);
    let active = mgr2.get_or_create("user:alice");
    assert_eq!(active.id, session_id);
    assert_eq!(active.name.as_deref(), Some("persist-test"));
}

#[test]
fn try_lock_integrates_with_manager_sessions() {
    let mut mgr = make_manager();
    let session = mgr.get_or_create("user:alice");

    // Lock
    assert!(mgr.try_lock_session(&session));
    assert!(mgr.is_session_busy(&session));

    // Another get_or_create returns the same session, still busy
    let same = mgr.get_or_create("user:alice");
    assert_eq!(same.id, session.id);
    assert!(mgr.is_session_busy(&same));

    // Give it back, session becomes free
    mgr.unlock_session(&session);
    assert!(!mgr.is_session_busy(&session));
    assert!(!mgr.is_session_busy(&same));
}

#[test]
fn session_default_agent_type_is_claude() {
    let mut locks = Locks::new();
    let s = Session::new(&mut locks, None);
    assert_eq!(s.agent_type, "");
    assert_eq!(s.effective_agent_type("coder"), "coder");
}

#[test]
fn session_explicit_agent_type() {
    let mut locks = Locks::new();
    let s = Session::new_with_agent_type(&mut locks, None, "kiro".to_string());
    assert_eq!(s.agent_type, "kiro");
    assert_eq!(s.effective_agent_type("coder"), "kiro");
}

#[test]
fn new_session_with_agent_type() {
    let mut mgr = make_manager();
    let s = mgr.new_session_with_agent("user:alice", Some("kiro-sess".into()), "kiro");
    assert_eq!(s.agent_type, "kiro");
    assert_eq!(s.name.as_deref(), Some("kiro-sess"));
}

#[test]
fn list_for_agent_filters_by_type() {
    let mut mgr = make_manager();
    mgr.new_session_with_agent("user:alice", Some("coder-1".into()), "coder");
    mgr.new_session_with_agent("user:alice", Some("kiro-1".into()), "kiro");
    mgr.new_session_with_agent("user:alice", Some("kiro-2".into()), "kiro");

    let claude_sessions = mgr.list_for_agent("user:alice", "coder");
    assert_eq!(claude_sessions.len(), 1);
    assert_eq!(claude_sessions[0].name.as_deref(), Some("coder-1"));

    let kiro_sessions = mgr.list_for_agent("user:alice", "kiro");
    assert_eq!(kiro_sessions.len(), 2);
}

#[test]
fn list_for_agent_empty_type_matches_claude() {
    let mut mgr = make_manager();
    mgr.new_session("user:alice", Some("old-session".into()));

    let sessions = mgr.list_for_agent("user:alice", "coder");
    assert_eq!(sessions.len(), 1);
    assert_eq!(sessions[0].name.as_deref(), Some("old-session"));
}

#[test]
fn agent_type_persists_to_disk() {
    let mut mgr = make_manager();
    let s = mgr.new_session_with_agent("user:alice", None, "kiro");
    let session_id = s.id.clone();

    let mgr2 = reloaded(&mgr);
    let sessions = mgr2.list("user:alice");
    assert_eq!(sessions.len(), 1);
    assert_eq!(sessions[0].id, session_id);
    assert_eq!(sessions[0].agent_type, "kiro");
}

#[test]
fn old_session_without_agent_type_defaults_to_claude() {
    let mut mgr = make_manager();
    mgr.new_session("user:alice", Some("old".into()));

    let mgr2 = reloaded(&mgr);
    let sessions = mgr2.list("user:alice");
    assert_eq!(sessions.len(), 1);
    assert_eq!(sessions[0].agent_type, "");
    assert_eq!(sessions[0].effective_agent_type("coder"), "coder");
}

#[test]
fn active_sessions_returns_only_current_sessions_per_key() {
    let mut mgr = make_manager();
    mgr.new_session_with_agent("user:alice", Some("first".into()), "coder");
    // A second session takes the place of the first as alice's active one.
    let latest = mgr.new_session_with_agent("user:alice", Some("second".into()), "kiro");
    mgr.new_session_with_agent("user:bob", Some("bob-s".into()), "coder");

    let mut active = mgr.active_sessions();
    active.sort_by(|a, b| a.0.cmp(&b.0));
    assert_eq!(active.len(), 2);
    assert_eq!(active[0].0, "user:alice");
    assert_eq!(active[0].1.id, latest.id);
    assert_eq!(active[0].1.agent_type, "kiro");
    assert_eq!(active[1].0, "user:bob");
}

fn at(secs: i64) -> Timestamp {
    Timestamp { secs, nanos: 0 }
}

#[test]
fn lists_are_newest_first() {
    let mut mgr = make_manager();
    mgr.add_session("k", Some("old".into()), "coder", "id-old".to_string(), at(10));
    mgr.add_session("k", Some("new".into()), "coder", "id-new".to_string(), at(30));
    mgr.add_session("k", Some("mid".into()), "coder", "id-mid".to_string(), at(20));
    let names: Vec<String> =
        mgr.list("k").into_iter().map(|s| s.name.unwrap()).collect();
    assert_eq!(names, vec!["new", "mid", "old"]);
    assert_eq!(mgr.list_all().len(), 3);
}

#[test]
fn new_sessions_inherit_the_work_directory() {
    let mut mgr = make_manager();
    mgr.set_work_dir("k", "/here");
    let s = mgr.new_session("k", None);
    assert_eq!(s.work_dir.as_deref(), Some("/here"));
    let other = mgr.new_session("other", None);
    assert_eq!(other.work_dir, None);
}

#[test]
fn settings_are_kept_on_the_active_session() {
    let mut mgr = make_manager();
    mgr.get_or_create("k");
    mgr.set_tmux_session("k", "cc");
    mgr.set_agent_session_id("k", "abc");
    assert_eq!(mgr.get_tmux_session("k").as_deref(), Some("cc"));
    assert_eq!(mgr.get_agent_session_id("k").as_deref(), Some("abc"));
    mgr.set_agent_session_id("k", "");
    assert_eq!(mgr.get_agent_session_id("k"), None);
    assert!(mgr.rename_session("k", "nice"));
    assert_eq!(mgr.get_or_create("k").name.as_deref(), Some("nice"));
    assert!(!mgr.rename_session("nobody", "x"));
}

#[test]
fn changes_are_to_be_saved() {
    let mut mgr = make_manager();
    assert!(!mgr.unsaved());
    mgr.get_or_create("k");
    assert!(mgr.unsaved());
    mgr.mark_saved();
    assert!(!mgr.unsaved());
    mgr.get_or_create("k");
    assert!(!mgr.unsaved());
}

#[test]
fn the_continue_marker_is_never_saved_or_loaded() {
    let mut mgr = make_manager();
    mgr.get_or_create("k");
    mgr.set_agent_session_id("k", CONTINUE_SESSION);
    assert_eq!(mgr.get_agent_session_id("k").as_deref(), Some(CONTINUE_SESSION));
    assert_eq!(reloaded(&mgr).get_agent_session_id("k"), None);

    let data = SessionData {
        id: "i".to_string(),
        key: "k".to_string(),
        name: None,
        agent_session_id: Some(CONTINUE_SESSION.to_string()),
        agent_type: "".to_string(),
        created_at: at(1),
        updated_at: at(2),
        work_dir: None,
        tmux_session: None,
    };
    let mut sessions = Table::new();
    sessions.insert("i".to_string(), data);
    let mut active_keys = Table::new();
    active_keys.insert("k".to_string(), "i".to_string());
    let mut loaded = SessionManager::new("coder".to_string());
    loaded.load_state(PersistedState { sessions, active_keys });
    assert_eq!(loaded.get_agent_session_id("k"), None);
    assert_eq!(loaded.get_or_create("k").id, "i");
    let busy = loaded.get_or_create("k");
    assert!(!loaded.is_session_busy(&busy));
}

#[test]
fn work_directories_name_their_state() {
    assert_eq!(encode_work_dir("/test/dir"), "-test-dir");
}

#[test]
fn a_switch_gives_the_session_asked_for() {
    let mut mgr = make_manager();
    let one = mgr.new_session("k", None);
    let two = mgr.new_session("k", None);
    assert_eq!(mgr.switch_session("k", &one.id).unwrap().id, one.id);
    assert_eq!(mgr.get_or_create("k").id, one.id);
    assert!(mgr.switch_session("other", &two.id).is_none());
    assert!(mgr.switch_session("k", "nowhere").is_none());
    assert_eq!(mgr.get_or_create("k").id, one.id);
}

#[test]
fn a_loaded_session_keeps_its_own_id() {
    let mut sessions = Table::new();
    sessions.insert(
        "filed".to_string(),
        SessionData {
            id: "own".to_string(),
            key: "k".to_string(),
            name: None,
            agent_session_id: None,
            agent_type: "".to_string(),
            created_at: at(1),
            updated_at: at(1),
            work_dir: None,
            tmux_session: None,
        },
    );
    let mut active_keys = Table::new();
    active_keys.insert("k".to_string(), "filed".to_string());
    let mut mgr = make_manager();
    mgr.load_state(PersistedState { sessions, active_keys });
    assert_eq!(mgr.get_or_create("k").id, "own");
    assert_eq!(mgr.switch_session("k", "filed").unwrap().id, "own");
    assert!(mgr.switch_session("k", "own").is_none());
}
