//! What users control: the agent, the verbose switch, permissions, idle
//! sessions and the command menu.

use crate::clock::{
    elapsed_minutes, minutes_between, new_id, now, uuid_shaped, valid_time, Timestamp,
};
use crate::config::{AgentEntry, CommandConfig, ProjectConfig};
use crate::engine::{
    active_agent, agent_names, begun, cleaned, ended, fresh_state, has_pending,
    lemma_active_has_lock, lemma_nothing_to_remove, lemma_put_back, locked, names_of, with_state,
    Engine, EngineInteractiveState, EngineModel, StateModel,
};
use crate::json::{as_text, at, json, member, text_of};
use crate::platform::{button, buttons_view, commands_view, BotCommand, Button};
use crate::routing::{
    allows, allows_all, denies, is_allow_all_response, is_allow_response, is_deny_response,
    law_answers_are_unambiguous,
};
use crate::session::{
    active_session, busy, created, ensured, has_lock, pairs, with_agent_session, work_dir_of,
    ManagerModel, Session, SessionModel, CONTINUE_SESSION,
};
use crate::text::{
    ascii, ascii_lowered, chars_of, decimal, decimal_of, first_of, holds_text, join, joined,
    lemma_first_of, lemma_occurs_in, lemma_part_occurs, lemma_texts_push, lowercased, occurs,
    occurs_at, same, skip, starts_with, text_opt, texts, to_lower, trim, trimmed,
};
use crate::turn::PermissionDecision;
use serde_json::Value;
use vstd::prelude::*;
use vstd::string::*;

verus! {

// ---------------------------------------------------------------------------
// Choosing an agent
// ---------------------------------------------------------------------------

/// What an agent runs, as the list of agents shows it.
pub open spec fn agent_extra(a: AgentEntry, program: Seq<char>) -> Seq<char> {
    if a.backend@ == "acp"@ {
        match a.acp {
            Some(c) => " ("@ + c.command@ + ")"@,
            None => Seq::empty(),
        }
    } else {
        " ("@ + program + ")"@
    }
}

pub open spec fn agent_line(a: AgentEntry, current: Seq<char>, program: Seq<char>) -> Seq<char> {
    "  "@ + a.name@ + agent_extra(a, program) + (if a.name@ == current {
        " <-"@
    } else {
        Seq::empty()
    })
}

/// The list of agents, with a mark on the one in use.
pub open spec fn agent_listing(
    agents: Seq<AgentEntry>,
    current: Seq<char>,
    program: Seq<char>,
) -> Seq<char> {
    joined(
        seq!["Current agent: "@ + current, "Available:"@] + agents.map_values(
            |a: AgentEntry| agent_line(a, current, program),
        ),
        "\n"@,
    )
}

/// Whether a key's conversation is in the middle of something.
pub open spec fn occupied(m: EngineModel, key: Seq<char>) -> bool {
    m.states.contains_key(key) && (busy(m.states[key].session, m.sessions.locks)
        || m.states[key].has_pending_permission || m.states[key].pending.len() > 0)
}

/// Whether a turn runs in a key's conversation.
pub open spec fn turn_runs(m: EngineModel, key: Seq<char>) -> bool {
    m.states.contains_key(key) && busy(m.states[key].session, m.sessions.locks)
}

/// Whether `/agent` with these arguments switches the agent.
pub open spec fn switches_agent(
    m: EngineModel,
    config: ProjectConfig,
    key: Seq<char>,
    args: Seq<char>,
) -> bool {
    &&& args.len() > 0
    &&& agent_names(config.agents@).contains(trimmed(args))
    &&& trimmed(args) != active_agent(m, config, key)
    &&& !occupied(m, key)
}

/// The answer to `/agent`.
pub open spec fn agent_reply(
    m: EngineModel,
    config: ProjectConfig,
    key: Seq<char>,
    args: Seq<char>,
) -> Seq<char> {
    let current = active_agent(m, config, key);
    let target = trimmed(args);
    if args.len() == 0 {
        agent_listing(config.agents@, current, config.program@)
    } else if !agent_names(config.agents@).contains(target) {
        "Unknown agent: "@ + target + "\nAvailable: "@ + joined(
            agent_names(config.agents@),
            ", "@,
        )
    } else if target == current {
        "Already using agent: "@ + target
    } else if occupied(m, key) {
        "Agent "@ + current + " is busy. Run /stop first, then switch."@
    } else {
        "Switched to agent: "@ + target + ". New session started."@
    }
}

/// The state after a switch: the conversation is closed, the choice is kept
/// and a new session of that agent is the active one.
pub open spec fn agent_switched(
    m: EngineModel,
    key: Seq<char>,
    target: Seq<char>,
    id: Seq<char>,
    at: Timestamp,
) -> EngineModel {
    EngineModel {
        sessions: created(m.sessions, key, None, target, id, at),
        states: m.states.remove(key),
        active: m.active.insert(key, target),
        ..m
    }
}

fn list_agents(agents: &Vec<AgentEntry>, current: &str, program: &str) -> (r: String)
    ensures
        r@ == agent_listing(agents@, current@, program@),
{
    let ghost rows = agents@.map_values(|a: AgentEntry| agent_line(a, current@, program@));
    let ghost head = seq!["Current agent: "@ + current@, "Available:"@];
    let mut lines: Vec<String> = Vec::new();
    let mut first: String = "Current agent: ".to_owned();
    first.append(current);
    lines.push(first);
    lines.push("Available:".to_owned());
    assert(texts(lines@) =~= head + rows.take(0));
    let mut i: usize = 0;
    while i < agents.len()
        invariant
            i <= agents.len(),
            rows == agents@.map_values(|a: AgentEntry| agent_line(a, current@, program@)),
            texts(lines@) == head + rows.take(i as int),
        decreases agents.len() - i,
    {
        let a: &AgentEntry = &agents[i];
        let mut line: String = "  ".to_owned();
        line.append(a.name.as_str());
        let mut extra: String = String::new();
        if same(a.backend.as_str(), "acp") {
            if let Some(c) = &a.acp {
                extra = " (".to_owned();
                extra.append(c.command.as_str());
                extra.append(")");
            }
        } else {
            extra = " (".to_owned();
            extra.append(program);
            extra.append(")");
        }
        assert(extra@ == agent_extra(*a, program@));
        line.append(extra.as_str());
        if same(a.name.as_str(), current) {
            line.append(" <-");
        } else {
            assert(line@ + Seq::<char>::empty() =~= line@);
        }
        proof {
            lemma_texts_push(lines@, line);
            assert(rows[i as int] == line@);
            assert((head + rows.take(i as int)).push(line@) =~= head + rows.take(i + 1));
        }
        lines.push(line);
        i += 1;
    }
    assert(rows.take(agents.len() as int) =~= rows);
    join(&lines, "\n")
}

impl Engine {
    /// Whether a turn runs in a key's conversation.
    pub fn has_turn(&self, key: &str) -> (r: bool)
        requires
            self.well_formed(),
        ensures
            r == turn_runs(self@, key@),
    {
        match self.interactive_states.get(key) {
            Some(s) => self.sessions.is_session_busy(&s.session),
            None => false,
        }
    }

    /// Whether a key's conversation is in the middle of something.
    pub fn is_occupied(&self, key: &str) -> (r: bool)
        requires
            self.well_formed(),
        ensures
            r == occupied(self@, key@),
    {
        match self.interactive_states.get(key) {
            Some(s) => self.sessions.is_session_busy(&s.session) || s.has_pending_permission
                || s.pending_messages.len() > 0,
            None => false,
        }
    }

    /// `/agent`: lists the agents, or switches to one. A switch closes the
    /// conversation and starts a new session; it is refused while a turn runs.
    /// Gives the answer and whether the old agent is to be closed.
    pub fn handle_agent_command(&mut self, key: &str, args: &str) -> (r: (String, bool))
        requires
            old(self).well_formed(),
        ensures
            final(self).well_formed(),
            final(self).config == old(self).config,
            r.0@ == agent_reply(old(self)@, old(self).config, key@, args@),
            r.1 == switches_agent(old(self)@, old(self).config, key@, args@),
            !r.1 ==> final(self)@ == old(self)@,
            r.1 ==> exists|id: Seq<char>, at: Timestamp|
                uuid_shaped(id) && final(self)@ == #[trigger] agent_switched(
                    old(self)@,
                    key@,
                    trimmed(args@),
                    id,
                    at,
                ),
    {
        let current: String = self.resolve_active_agent(key);
        if args.is_empty() {
            let listing = list_agents(
                &self.config.agents,
                current.as_str(),
                self.config.program.as_str(),
            );
            return (listing, false);
        }
        let target: &str = trim(args);
        let known: Vec<String> = names_of(&self.config.agents);
        if !holds_text(&known, target) {
            let mut reply: String = "Unknown agent: ".to_owned();
            reply.append(target);
            reply.append("\nAvailable: ");
            let names: String = join(&known, ", ");
            reply.append(names.as_str());
            return (reply, false);
        }
        if same(target, current.as_str()) {
            let mut reply: String = "Already using agent: ".to_owned();
            reply.append(target);
            return (reply, false);
        }
        if self.is_occupied(key) {
            let mut reply: String = "Agent ".to_owned();
            reply.append(current.as_str());
            reply.append(" is busy. Run /stop first, then switch.");
            return (reply, false);
        }
        let ghost m = self@;
        let _: Option<EngineInteractiveState> = self.take_state(key);
        self.active_agents.insert(key.to_owned(), target.to_owned());
        let s: Session = self.sessions.new_session_with_agent(key, None, target);
        assert(self@ == agent_switched(m, key@, target@, s@.id, s@.created_at));
        let mut reply: String = "Switched to agent: ".to_owned();
        reply.append(target);
        reply.append(". New session started.");
        (reply, true)
    }
}

// ---------------------------------------------------------------------------
// The verbose switch
// ---------------------------------------------------------------------------

/// What a lowercase word asks of the verbose switch; nothing asks for a toggle.
pub open spec fn wish_in(a: Seq<char>) -> Option<bool> {
    if a == "on"@ || a == "true"@ || a == "1"@ || a == "开"@ {
        Some(true)
    } else if a == "off"@ || a == "false"@ || a == "0"@ || a == "关"@ {
        Some(false)
    } else {
        None
    }
}

/// What `/verbose` with its arguments asks for, and `/quiet`.
pub open spec fn verbose_wish(quiet: bool, args: Seq<char>) -> Option<bool> {
    if quiet {
        Some(false)
    } else {
        wish_in(lowercased(trimmed(args)))
    }
}

/// The verbose switch of a conversation.
pub open spec fn is_verbose(s: StateModel, default: bool) -> bool {
    match s.verbose_override {
        Some(v) => v,
        None => default,
    }
}

/// The verbose switch of a key.
pub open spec fn verbose_of(m: EngineModel, default: bool, key: Seq<char>) -> bool {
    if m.states.contains_key(key) {
        is_verbose(m.states[key], default)
    } else {
        default
    }
}

/// The conversation of a key, or a new one on its active session.
pub open spec fn state_or_new(m: EngineModel, sessions: ManagerModel, key: Seq<char>) -> StateModel {
    if m.states.contains_key(key) {
        m.states[key]
    } else {
        fresh_state(active_session(sessions, key)->0)
    }
}

/// The state with the verbose switch set as wished, or turned over.
pub open spec fn verbose_set(
    m: EngineModel,
    default: bool,
    key: Seq<char>,
    wish: Option<bool>,
    sessions: ManagerModel,
) -> EngineModel {
    let s = state_or_new(m, sessions, key);
    let v = match wish {
        Some(w) => w,
        None => !is_verbose(s, default),
    };
    with_state(
        EngineModel { sessions, ..m },
        key,
        StateModel { verbose_override: Some(v), ..s },
    )
}

/// What a lowercase word asks of the verbose switch.
pub fn parse_wish(a: &str) -> (r: Option<bool>)
    ensures
        r == wish_in(a@),
{
    if same(a, "on") || same(a, "true") || same(a, "1") || same(a, "开") {
        Some(true)
    } else if same(a, "off") || same(a, "false") || same(a, "0") || same(a, "关") {
        Some(false)
    } else {
        None
    }
}

fn parse_verbose(quiet: bool, args: &str) -> (r: Option<bool>)
    ensures
        r == verbose_wish(quiet, args@),
        !quiet && ascii(trimmed(args@)) ==> r == wish_in(ascii_lowered(trimmed(args@))),
{
    if quiet {
        return Some(false);
    }
    let arg: String = to_lower(trim(args));
    parse_wish(arg.as_str())
}

/// The answer to `/verbose`.
pub open spec fn verbose_text(on: bool) -> Seq<char> {
    if on {
        "🔊 详细模式开:会显示工具调用进度和思考过程"@
    } else {
        "🤫 安静模式开:只发最终回复,过程不显示"@
    }
}

impl Engine {
    /// `/verbose` and `/quiet`: sets the switch of a key, or turns it over.
    /// Gives the answer.
    pub fn set_verbose(&mut self, key: &str, quiet: bool, args: &str) -> (r: String)
        requires
            old(self).well_formed(),
        ensures
            final(self).well_formed(),
            final(self).config == old(self).config,
            exists|sessions: ManagerModel|
                ensured(old(self)@.sessions, key@, sessions) && final(self)@
                    == #[trigger] verbose_set(
                    old(self)@,
                    old(self).config.display.verbose,
                    key@,
                    verbose_wish(quiet, args@),
                    sessions,
                ),
            !quiet && ascii(trimmed(args@)) ==> final(self)@.states[key@].verbose_override == Some(
                match wish_in(ascii_lowered(trimmed(args@))) {
                    Some(w) => w,
                    None => !verbose_of(old(self)@, old(self).config.display.verbose, key@),
                },
            ),
            r@ == verbose_text(final(self)@.states[key@].verbose_override == Some(true)),
    {
        let wish: Option<bool> = parse_verbose(quiet, args);
        self.switch_verbose(key, wish)
    }

    /// Sets the verbose switch of a key as wished, or turns it over. Gives the
    /// answer.
    pub fn switch_verbose(&mut self, key: &str, wish: Option<bool>) -> (r: String)
        requires
            old(self).well_formed(),
        ensures
            final(self).well_formed(),
            final(self).config == old(self).config,
            exists|sessions: ManagerModel|
                ensured(old(self)@.sessions, key@, sessions) && final(self)@
                    == #[trigger] verbose_set(
                    old(self)@,
                    old(self).config.display.verbose,
                    key@,
                    wish,
                    sessions,
                ),
            r@ == verbose_text(final(self)@.states[key@].verbose_override == Some(true)),
    {
        let ghost m0 = self@;
        let s: Session = self.sessions.get_or_create(key);
        let ghost m = self@;
        proof {
            lemma_active_has_lock(self.sessions, key@);
        }
        let state: EngineInteractiveState = match self.take_state(key) {
            Some(state) => state,
            None => {
                proof {
                    lemma_nothing_to_remove(m, key@);
                }
                EngineInteractiveState::new(s)
            },
        };
        let current: bool = match state.verbose_override {
            Some(v) => v,
            None => self.config.display.verbose,
        };
        let v: bool = match wish {
            Some(w) => w,
            None => !current,
        };
        let mut state: EngineInteractiveState = state;
        state.verbose_override = Some(v);
        self.put_state(key, state);
        proof {
            lemma_put_back(m, key@, state@);
            assert(self@ == verbose_set(
                m0,
                old(self).config.display.verbose,
                key@,
                wish,
                m.sessions,
            ));
        }
        if v {
            "🔊 详细模式开:会显示工具调用进度和思考过程".to_owned()
        } else {
            "🤫 安静模式开:只发最终回复,过程不显示".to_owned()
        }
    }
}

// ---------------------------------------------------------------------------
// Pending permissions
// ---------------------------------------------------------------------------

/// What a message means for a pending permission request.
#[derive(PartialEq, Eq, Structural, Clone, Copy, Debug)]
pub enum PermissionAnswer {
    /// Nothing is pending: the message goes its way.
    Pass,
    Decided(PermissionDecision),
    /// The message is no answer; the user is reminded of the request.
    Unclear,
}

/// The decision that a text stands for.
pub open spec fn decision_in(text: Seq<char>) -> Option<PermissionDecision> {
    decided(lowercased(trimmed(text)))
}

/// The decision that a lowercase text stands for.
pub open spec fn decided(lower: Seq<char>) -> Option<PermissionDecision> {
    if allows_all(lower) {
        Some(PermissionDecision::AllowAll)
    } else if allows(lower) {
        Some(PermissionDecision::Allow)
    } else if denies(lower) {
        Some(PermissionDecision::Deny)
    } else {
        None
    }
}

/// The decision that a text stands for.
pub fn parse_decision(text: &str) -> (r: Option<PermissionDecision>)
    ensures
        r == decision_in(text@),
{
    let lower: String = to_lower(trim(text));
    decide_on(lower.as_str())
}

/// The decision that a lowercase text stands for.
pub fn decide_on(lower: &str) -> (r: Option<PermissionDecision>)
    ensures
        r == decided(lower@),
{
    if is_allow_all_response(lower) {
        Some(PermissionDecision::AllowAll)
    } else if is_allow_response(lower) {
        Some(PermissionDecision::Allow)
    } else if is_deny_response(lower) {
        Some(PermissionDecision::Deny)
    } else {
        None
    }
}

/// What a text is to a permission request of its key.
pub open spec fn answer_in(m: EngineModel, key: Seq<char>, text: Seq<char>) -> PermissionAnswer {
    if !awaits_answer(m, key) {
        PermissionAnswer::Pass
    } else {
        match decision_in(text) {
            Some(d) => PermissionAnswer::Decided(d),
            None => PermissionAnswer::Unclear,
        }
    }
}

/// Whether a permission request of a key waits for an answer.
pub open spec fn awaits_answer(m: EngineModel, key: Seq<char>) -> bool {
    m.states.contains_key(key) && m.states[key].has_pending_permission && m.states[key].can_decide
}

impl Engine {
    /// What a message means for a pending permission request of its key. A
    /// message is taken as an answer, clear or not, exactly while a request
    /// waits for one.
    pub fn handle_pending_permission(&self, key: &str, text: &str) -> (r: PermissionAnswer)
        requires
            self.well_formed(),
        ensures
            r == answer_in(self@, key@, text@),
    {
        let waiting: bool = match self.interactive_states.get(key) {
            Some(state) => state.has_pending_permission && state.can_decide,
            None => false,
        };
        if !waiting {
            return PermissionAnswer::Pass;
        }
        match parse_decision(text) {
            Some(d) => PermissionAnswer::Decided(d),
            None => PermissionAnswer::Unclear,
        }
    }
}

/// The reminder of a pending request.
pub open spec fn reminder() -> Seq<char> {
    "🔐 有权限请求等待确认："@
}

/// The reminder where there are no buttons.
pub fn permission_reminder() -> (r: String)
    ensures
        r@ == reminder_text(),
{
    let mut r: String = "🔐 有权限请求等待确认：".to_owned();
    r.append("\n回复 `allow` 允许 / `deny` 拒绝 / `allow all` 全部允许");
    r
}

/// The reminder where there are no buttons: it tells what to answer.
pub open spec fn reminder_text() -> Seq<char> {
    reminder() + "\n回复 `allow` 允许 / `deny` 拒绝 / `allow all` 全部允许"@
}

/// The buttons of the reminder.
pub open spec fn reminder_buttons() -> Seq<(Seq<char>, Seq<char>)> {
    seq![
        ("👍 放行"@, "perm_text:allow"@),
        ("🚫 拦截"@, "perm_text:deny"@),
        ("⚡ 全部放行"@, "perm_text:allow_all"@),
    ]
}

/// The reminder where there are buttons, and the buttons.
pub fn permission_reminder_buttons() -> (r: (String, Vec<Button>))
    ensures
        r.0@ == reminder(),
        buttons_view(r.1@) == reminder_buttons(),
{
    let mut b: Vec<Button> = Vec::new();
    b.push(button("👍 放行", "perm_text:allow".to_owned()));
    b.push(button("🚫 拦截", "perm_text:deny".to_owned()));
    b.push(button("⚡ 全部放行", "perm_text:allow_all".to_owned()));
    assert(buttons_view(b@) =~= seq![
        ("👍 放行"@, "perm_text:allow"@),
        ("🚫 拦截"@, "perm_text:deny"@),
        ("⚡ 全部放行"@, "perm_text:allow_all"@),
    ]);
    ("🔐 有权限请求等待确认：".to_owned(), b)
}

// ---------------------------------------------------------------------------
// Idle sessions
// ---------------------------------------------------------------------------

/// Whether a session is replaced because it was idle for long: it is, unless
/// there is an agent session to resume.
pub open spec fn idle_too_long(minutes: u32, s: SessionModel, at: Timestamp) -> bool {
    minutes > 0 && elapsed_minutes(s.updated_at, at) >= minutes && s.agent_session_id is None
}

/// The state after an idle session was replaced: the old one is released and
/// its conversation closed, the new one is locked in a new conversation.
pub open spec fn replaced_session(
    m: EngineModel,
    key: Seq<char>,
    lock: nat,
    id: Seq<char>,
    at: Timestamp,
) -> EngineModel {
    let m1 = EngineModel {
        sessions: created(m.sessions, key, None, Seq::empty(), id, at),
        ..m
    };
    let s = active_session(m1.sessions, key)->0;
    with_state(
        locked(cleaned(locked(m1, lock, false), key), s.lock, true),
        key,
        fresh_state(s),
    )
}

impl Engine {
    /// Replaces a locked session that was idle for too long; gives the session
    /// that takes its place, locked, where it was.
    pub fn reset_if_idle(&mut self, key: &str, session: &Session) -> (r: Option<Session>)
        requires
            old(self).well_formed(),
            has_lock(session@, old(self)@.sessions.locks),
            valid_time(session@.updated_at),
        ensures
            final(self).well_formed(),
            final(self).config == old(self).config,
            r is None ==> final(self)@ == old(self)@ && exists|at: Timestamp|
                0 <= at.secs && valid_time(at) && !#[trigger] idle_too_long(
                    old(self).config.reset_on_idle_mins,
                    session@,
                    at,
                ),
            r is Some ==> r->0@ == final(self)@.states[key@].session && exists|
                id: Seq<char>,
                at: Timestamp,
            |
                uuid_shaped(id) && idle_too_long(
                    old(self).config.reset_on_idle_mins,
                    session@,
                    at,
                ) && final(self)@ == #[trigger] replaced_session(
                    old(self)@,
                    key@,
                    session@.lock,
                    id,
                    at,
                ),
            old(self).config.reset_on_idle_mins == 0 || session@.agent_session_id is Some
                ==> r is None,
    {
        let at: Timestamp = now();
        let r: Option<Session> = self.reset_if_idle_at(key, session, new_id(), at);
        proof {
            if r is None {
                assert(!idle_too_long(old(self).config.reset_on_idle_mins, session@, at));
            }
        }
        r
    }

    /// The replacement at the given time, with the given id.
    pub fn reset_if_idle_at(&mut self, key: &str, session: &Session, id: String, at: Timestamp) -> (r:
        Option<Session>)
        requires
            old(self).well_formed(),
            has_lock(session@, old(self)@.sessions.locks),
            valid_time(session@.updated_at),
            valid_time(at),
        ensures
            final(self).well_formed(),
            final(self).config == old(self).config,
            r is Some <==> idle_too_long(old(self).config.reset_on_idle_mins, session@, at),
            r is Some ==> r->0@ == final(self)@.states[key@].session && has_lock(
                r->0@,
                final(self)@.sessions.locks,
            ),
            final(self)@ == if r is Some {
                replaced_session(old(self)@, key@, session@.lock, id@, at)
            } else {
                old(self)@
            },
    {
        let minutes: u32 = self.config.reset_on_idle_mins;
        if minutes == 0 {
            return None;
        }
        let idle: i64 = minutes_between(session.updated_at, at);
        if idle < minutes as i64 || session.agent_session_id.is_some() {
            return None;
        }
        proof {
            reveal_strlit("");
            assert(""@ =~= Seq::empty());
        }
        let s: Session = self.sessions.add_session(key, None, "", id, at);
        proof {
            lemma_active_has_lock(self.sessions, key@);
        }
        self.unlock(session);
        let _: (String, Option<String>) = self.cleanup_agent_session(key);
        let _: bool = self.relock(&s);
        let r: Session = s.share();
        self.put_state(key, EngineInteractiveState::new(s));
        Some(r)
    }

    /// Keeps the agent's session id of a finished turn for the next one; the
    /// marker for the most recent session is never kept.
    pub fn save_agent_session(&mut self, key: &str, session_id: &Option<String>) -> (r: bool)
        requires
            old(self).well_formed(),
        ensures
            final(self).well_formed(),
            final(self).config == old(self).config,
            r == keeps_session_id(text_opt(*session_id)),
            !r ==> final(self)@ == old(self)@,
            r ==> exists|at: Timestamp|
                valid_time(at) && final(self)@.sessions == #[trigger] with_agent_session(
                    old(self)@.sessions,
                    key@,
                    session_id->0@,
                    at,
                ) && final(self)@ == (EngineModel {
                    sessions: final(self)@.sessions,
                    ..old(self)@
                }),
    {
        match session_id {
            Some(sid) => if !sid.as_str().is_empty() && !same(sid.as_str(), CONTINUE_SESSION) {
                let ghost m = self@;
                self.sessions.set_agent_session_id(key, sid.as_str());
                proof {
                    let at = choose|at: Timestamp|
                        valid_time(at) && self.sessions@ == #[trigger] with_agent_session(
                            m.sessions,
                            key@,
                            sid@,
                            at,
                        );
                    assert(self@.sessions == with_agent_session(m.sessions, key@, sid@, at));
                }
                true
            } else {
                false
            },
            None => false,
        }
    }
}

/// Whether an agent's session id is worth keeping.
pub open spec fn keeps_session_id(sid: Option<Seq<char>>) -> bool {
    sid is Some && sid->0.len() > 0 && sid->0 != CONTINUE_SESSION@
}

// ---------------------------------------------------------------------------
// The command menu
// ---------------------------------------------------------------------------

/// The commands that are always there.
pub open spec fn builtin_menu() -> Seq<(Seq<char>, Seq<char>)> {
    seq![
        ("new"@, "New session"@),
        ("list"@, "List sessions"@),
        ("switch"@, "Switch session"@),
        ("resume"@, "List sessions, or resume one"@),
        ("current"@, "Current session info"@),
        ("delete"@, "Delete session"@),
        ("name"@, "Rename session"@),
        ("stop"@, "Stop current task"@),
        ("compress"@, "Compress context"@),
        ("history"@, "Session history"@),
        ("model"@, "Switch model"@),
        ("mode"@, "Switch permission mode"@),
        ("agent"@, "Switch agent backend"@),
        ("dir"@, "Change work directory"@),
        ("attach"@, "Bind channel to a tmux session"@),
        ("verbose"@, "Toggle showing tool progress + thinking"@),
        ("status"@, "Show status"@),
        ("skills"@, "List skills"@),
        ("cron"@, "Scheduled tasks"@),
        ("commands"@, "List custom commands"@),
        ("sync"@, "Sync sessions"@),
        ("help"@, "Show help"@),
    ]
}

/// The custom commands in the menu.
pub open spec fn custom_menu(commands: Seq<CommandConfig>) -> Seq<(Seq<char>, Seq<char>)> {
    commands.map_values(|c: CommandConfig| (c.name@, c.description@))
}

fn entry(name: &str, description: &str) -> (r: BotCommand)
    ensures
        r@ == (name@, description@),
{
    BotCommand { name: name.to_owned(), description: description.to_owned() }
}

fn builtin_commands() -> (r: Vec<BotCommand>)
    ensures
        commands_view(r@) == builtin_menu(),
{
    let mut v: Vec<BotCommand> = Vec::new();
    v.push(entry("new", "New session"));
    v.push(entry("list", "List sessions"));
    v.push(entry("switch", "Switch session"));
    v.push(entry("resume", "List sessions, or resume one"));
    v.push(entry("current", "Current session info"));
    v.push(entry("delete", "Delete session"));
    v.push(entry("name", "Rename session"));
    v.push(entry("stop", "Stop current task"));
    v.push(entry("compress", "Compress context"));
    v.push(entry("history", "Session history"));
    v.push(entry("model", "Switch model"));
    v.push(entry("mode", "Switch permission mode"));
    v.push(entry("agent", "Switch agent backend"));
    v.push(entry("dir", "Change work directory"));
    v.push(entry("attach", "Bind channel to a tmux session"));
    v.push(entry("verbose", "Toggle showing tool progress + thinking"));
    v.push(entry("status", "Show status"));
    v.push(entry("skills", "List skills"));
    v.push(entry("cron", "Scheduled tasks"));
    v.push(entry("commands", "List custom commands"));
    v.push(entry("sync", "Sync sessions"));
    v.push(entry("help", "Show help"));
    assert(commands_view(v@) =~= builtin_menu());
    v
}

/// A skill by its name and description.
#[derive(Debug)]
pub struct Skill {
    pub name: String,
    pub description: String,
}

/// The skills in the menu.
pub open spec fn skill_menu(skills: Seq<Skill>) -> Seq<(Seq<char>, Seq<char>)> {
    skills.map_values(|s: Skill| (s.name@, s.description@))
}

/// All commands: the built-in ones, the custom ones and the skills.
pub fn collect_all_commands(commands: &Vec<CommandConfig>, skills: &Vec<Skill>) -> (r: Vec<
    BotCommand,
>)
    ensures
        commands_view(r@) == builtin_menu() + custom_menu(commands@) + skill_menu(skills@),
{
    let mut r: Vec<BotCommand> = builtin_commands();
    let ghost base = builtin_menu();
    let ghost customs = custom_menu(commands@);
    let ghost skilled = skill_menu(skills@);
    assert(commands_view(r@) =~= base + customs.take(0));
    let mut i: usize = 0;
    while i < commands.len()
        invariant
            i <= commands.len(),
            customs == custom_menu(commands@),
            commands_view(r@) == base + customs.take(i as int),
        decreases commands.len() - i,
    {
        let e: BotCommand = entry(commands[i].name.as_str(), commands[i].description.as_str());
        proof {
            assert(commands_view(r@.push(e)) =~= commands_view(r@).push(e@));
            assert((base + customs.take(i as int)).push(e@) =~= base + customs.take(i + 1));
        }
        r.push(e);
        i += 1;
    }
    assert(customs.take(commands.len() as int) =~= customs);
    assert(commands_view(r@) =~= base + customs + skilled.take(0));
    let mut j: usize = 0;
    while j < skills.len()
        invariant
            j <= skills.len(),
            skilled == skill_menu(skills@),
            commands_view(r@) == base + customs + skilled.take(j as int),
        decreases skills.len() - j,
    {
        let e: BotCommand = entry(skills[j].name.as_str(), skills[j].description.as_str());
        proof {
            assert(commands_view(r@.push(e)) =~= commands_view(r@).push(e@));
            assert((base + customs + skilled.take(j as int)).push(e@) =~= base + customs
                + skilled.take(j + 1));
        }
        r.push(e);
        j += 1;
    }
    assert(skilled.take(skills.len() as int) =~= skilled);
    r
}

pub open spec fn skill_line(s: Skill) -> Seq<char> {
    "  /"@ + s.name@ + (if s.description@.len() == 0 {
        Seq::empty()
    } else {
        " — "@ + s.description@
    })
}

/// The answer to `/skills`.
pub open spec fn skills_text(skills: Seq<Skill>) -> Seq<char> {
    if skills.len() == 0 {
        "🔍 暂无可用技能。"@
    } else {
        joined(
            seq!["🎯 可用技能 ("@ + decimal(skills.len()) + "):"@] + skills.map_values(
                |s: Skill| skill_line(s),
            ),
            "\n"@,
        )
    }
}

/// The list of skills.
pub fn list_skills(skills: &Vec<Skill>) -> (r: String)
    ensures
        r@ == skills_text(skills@),
{
    if skills.len() == 0 {
        return "🔍 暂无可用技能。".to_owned();
    }
    let ghost rows = skills@.map_values(|s: Skill| skill_line(s));
    let ghost head = seq!["🎯 可用技能 ("@ + decimal(skills@.len()) + "):"@];
    let mut first: String = "🎯 可用技能 (".to_owned();
    let n: String = decimal_of(skills.len() as u64);
    first.append(n.as_str());
    first.append("):");
    let mut lines: Vec<String> = Vec::new();
    lines.push(first);
    assert(texts(lines@) =~= head + rows.take(0));
    let mut i: usize = 0;
    while i < skills.len()
        invariant
            i <= skills.len(),
            rows == skills@.map_values(|s: Skill| skill_line(s)),
            texts(lines@) == head + rows.take(i as int),
        decreases skills.len() - i,
    {
        let mut line: String = "  /".to_owned();
        line.append(skills[i].name.as_str());
        let mut desc: String = String::new();
        if !skills[i].description.as_str().is_empty() {
            desc = " — ".to_owned();
            desc.append(skills[i].description.as_str());
        }
        line.append(desc.as_str());
        proof {
            lemma_texts_push(lines@, line);
            assert(rows[i as int] == line@);
            assert((head + rows.take(i as int)).push(line@) =~= head + rows.take(i + 1));
        }
        lines.push(line);
        i += 1;
    }
    assert(rows.take(skills.len() as int) =~= rows);
    join(&lines, "\n")
}

// ---------------------------------------------------------------------------
// Names of old sessions
// ---------------------------------------------------------------------------

/// Whether a session has no name yet and can get one from its channel.
pub open spec fn nameable(p: (Seq<char>, SessionModel)) -> bool {
    p.1.name is None && "discord:"@.is_prefix_of(p.0)
}

/// The keys of the sessions in a list that have no name yet, in order.
pub open spec fn nameable_keys(list: Seq<(Seq<char>, SessionModel)>) -> Seq<Seq<char>>
    decreases list.len(),
{
    if list.len() == 0 {
        Seq::empty()
    } else if nameable(list.last()) {
        nameable_keys(list.drop_last()).push(list.last().0)
    } else {
        nameable_keys(list.drop_last())
    }
}

/// The keys of the sessions that have no name yet and can get one from their
/// channel.
pub fn unnamed_keys(list: &Vec<(String, Session)>) -> (r: Vec<String>)
    ensures
        texts(r@) == nameable_keys(pairs(list@)),
{
    let ghost all = pairs(list@);
    let mut r: Vec<String> = Vec::new();
    let mut i: usize = 0;
    assert(texts(r@) =~= nameable_keys(all.take(0)));
    while i < list.len()
        invariant
            i <= list.len(),
            all == pairs(list@),
            texts(r@) == nameable_keys(all.take(i as int)),
        decreases list.len() - i,
    {
        proof {
            assert(all.take(i + 1).drop_last() =~= all.take(i as int));
            assert(all.take(i + 1).last() == (list@[i as int].0@, list@[i as int].1@));
        }
        if list[i].1.name.is_none() && starts_with(list[i].0.as_str(), "discord:") {
            let key: String = list[i].0.clone();
            proof {
                lemma_texts_push(r@, key);
            }
            r.push(key);
        }
        i += 1;
    }
    assert(all.take(list.len() as int) =~= all);
    r
}

/// What stands behind the first colon of a key; nothing where there is none.
pub open spec fn channel_in(key: Seq<char>) -> Option<Seq<char>> {
    let i = first_of(key, ':');
    if i < key.len() {
        Some(key.skip(i + 1))
    } else {
        None
    }
}

/// The channel that a key names.
pub fn channel_of_key<'a>(key: &'a str) -> (r: Option<&'a str>)
    ensures
        match r {
            Some(c) => channel_in(key@) == Some(c@),
            None => channel_in(key@) is None,
        },
{
    let v: Vec<char> = chars_of(key);
    let mut i: usize = 0;
    while i < v.len() && v[i] != ':'
        invariant
            i <= v.len(),
            v@ == key@,
            forall|k: int| 0 <= k < i ==> #[trigger] v@[k] != ':',
        decreases v.len() - i,
    {
        i += 1;
    }
    proof {
        lemma_first_of(key@, ':', i as int);
    }
    if i < v.len() {
        Some(skip(key, i + 1))
    } else {
        None
    }
}

/// A name as far as it says something: without white space at its ends.
pub open spec fn name_given(name: Option<Seq<char>>) -> Option<Seq<char>> {
    match name {
        Some(n) => if trimmed(n).len() > 0 {
            Some(trimmed(n))
        } else {
            None
        },
        None => None,
    }
}

/// The name in what a platform tells of a channel: trimmed, and none where it
/// is empty.
pub fn channel_name_in(data: &Value) -> (r: Option<String>)
    ensures
        text_opt(r) == name_given(as_text(member(json(*data), "name"@))),
{
    match text_of(at(Some(data), "name")) {
        Some(n) => {
            let name: &str = trim(n);
            if name.is_empty() {
                None
            } else {
                Some(name.to_owned())
            }
        },
        None => None,
    }
}

/// What is said of a compression that was asked for.
pub open spec fn compress_text(sent: bool) -> Seq<char> {
    if sent {
        "🗜️ 上下文压缩已触发"@
    } else {
        "🗜️ 没有运行中的 Agent 会话"@
    }
}

/// The answer to `/compress`, for whether an agent was there to take it.
pub fn compress_reply(sent: bool) -> (r: String)
    ensures
        r@ == compress_text(sent),
{
    if sent {
        "🗜️ 上下文压缩已触发".to_owned()
    } else {
        "🗜️ 没有运行中的 Agent 会话".to_owned()
    }
}

// ---------------------------------------------------------------------------
// Laws
// ---------------------------------------------------------------------------

/// While a turn runs, a request waits or messages are queued, the agent is not
/// switched.
pub proof fn law_busy_agent_is_not_switched(
    m: EngineModel,
    config: ProjectConfig,
    key: Seq<char>,
    args: Seq<char>,
)
    requires
        occupied(m, key),
    ensures
        !switches_agent(m, config, key, args),
{
}

/// After a switch the key works with that agent, in a session of its own that
/// is recorded as the agent's.
pub proof fn law_switched_agent_is_active(
    m: EngineModel,
    config: ProjectConfig,
    key: Seq<char>,
    target: Seq<char>,
    id: Seq<char>,
    at: Timestamp,
)
    ensures
        ({
            let after = agent_switched(m, key, target, id, at);
            &&& active_agent(after, config, key) == target
            &&& active_session(after.sessions, key)->0.agent_type == target
            &&& !after.states.contains_key(key)
        }),
{
}

/// `/verbose` twice in a row turns the switch of a key over and back, and that
/// of no other key.
pub proof fn law_verbose_toggles(
    m: EngineModel,
    default: bool,
    key: Seq<char>,
    first: ManagerModel,
    second: ManagerModel,
)
    ensures
        ({
            let v = verbose_of(m, default, key);
            let once = verbose_set(m, default, key, None, first);
            let twice = verbose_set(once, default, key, None, second);
            &&& once.states[key].verbose_override == Some(!v)
            &&& twice.states[key].verbose_override == Some(v)
            &&& verbose_of(twice, default, key) == v
            &&& forall|other: Seq<char>| #[trigger]
                verbose_of(twice, default, other) == verbose_of(m, default, other)
        }),
{
}

/// A wish sets the switch of a key from any state, and that of no other key.
pub proof fn law_verbose_is_set(
    m: EngineModel,
    default: bool,
    key: Seq<char>,
    on: bool,
    sessions: ManagerModel,
)
    ensures
        ({
            let after = verbose_set(m, default, key, Some(on), sessions);
            &&& after.states[key].verbose_override == Some(on)
            &&& forall|other: Seq<char>|
                other != key ==> #[trigger] verbose_of(after, default, other) == verbose_of(
                    m,
                    default,
                    other,
                )
        }),
{
}

/// "on" asks for the switch to be on and "off" for it to be off, no word asks
/// for a toggle, and `/quiet` asks for it to be off whatever is said with it.
pub proof fn law_verbose_words(args: Seq<char>)
    ensures
        wish_in("on"@) == Some(true),
        wish_in("off"@) == Some(false),
        wish_in(""@) is None,
        verbose_wish(true, args) == Some(false),
{
    reveal_strlit("on");
    reveal_strlit("off");
    reveal_strlit("");
    reveal_strlit("true");
    reveal_strlit("1");
    reveal_strlit("开");
    reveal_strlit("false");
    reveal_strlit("0");
    reveal_strlit("关");
    assert("off"@[1] == 'f');
    assert("on"@[1] == 'n');
    assert(""@.len() == 0 && "on"@.len() == 2 && "off"@.len() == 3 && "true"@.len() == 4);
    assert("false"@.len() == 5 && "1"@.len() == 1 && "0"@.len() == 1);
    assert("开"@.len() == 1 && "关"@.len() == 1);
}

/// Every agent of the project stands in the list, with a mark on the one in use,
/// and on no other.
pub proof fn law_agents_are_listed(
    agents: Seq<AgentEntry>,
    current: Seq<char>,
    program: Seq<char>,
    i: int,
)
    requires
        0 <= i < agents.len(),
    ensures
        occurs(agent_listing(agents, current, program), agents[i].name@),
        occurs(agent_listing(agents, current, program), current),
        agents[i].name@ == current ==> " <-"@.is_suffix_of(agent_line(agents[i], current, program)),
        agents[i].name@ != current && !occurs(agents[i].name@, "-"@) ==> !" <-"@.is_suffix_of(
            agent_line(agents[i], current, program),
        ),
{
    let rows = seq!["Current agent: "@ + current, "Available:"@] + agents.map_values(
        |a: AgentEntry| agent_line(a, current, program),
    );
    let all = agent_listing(agents, current, program);
    let line = agent_line(agents[i], current, program);
    assert(rows[i + 2] == line);
    let (a, b) = lemma_part_occurs(rows, "\n"@, i + 2);
    let name = agents[i].name@;
    let mark = if name == current {
        " <-"@
    } else {
        Seq::<char>::empty()
    };
    let extra = agent_extra(agents[i], program);
    assert(line =~= "  "@ + name + (extra + mark));
    assert(all =~= (a + "  "@) + name + ((extra + mark) + b));
    lemma_occurs_in(a + "  "@, name, (extra + mark) + b);
    let (c, d) = lemma_part_occurs(rows, "\n"@, 0);
    assert(all =~= (c + "Current agent: "@) + current + d);
    lemma_occurs_in(c + "Current agent: "@, current, d);
    reveal_strlit(" <-");
    reveal_strlit("  ");
    reveal_strlit(" (");
    reveal_strlit(")");
    if name == current {
        assert(" <-"@ =~= line.skip(line.len() - 3));
    } else {
        assert(mark.len() == 0);
        if " <-"@.is_suffix_of(line) {
            assert(line.skip(line.len() - 3)[2] == '-');
            assert(line.last() == '-');
            if extra.len() > 0 {
                assert(line.last() == extra.last());
                assert(extra.last() == ')');
            }
            reveal_strlit("-");
            assert(line.last() == name.last());
            assert(name =~= name.take(name.len() - 1) + "-"@ + Seq::empty());
            lemma_occurs_in(name.take(name.len() - 1), "-"@, Seq::empty());
        }
    }
}

/// The answer to `/agent` names what it speaks of: an agent that is not known
/// along with those that are, the one in use, the busy one, and the one that was
/// switched to.
pub proof fn law_agent_reply_names_the_agent(
    m: EngineModel,
    config: ProjectConfig,
    key: Seq<char>,
    args: Seq<char>,
    i: int,
)
    requires
        args.len() > 0,
        0 <= i < config.agents@.len(),
    ensures
        ({
            let reply = agent_reply(m, config, key, args);
            let known = agent_names(config.agents@).contains(trimmed(args));
            &&& !known ==> occurs(reply, trimmed(args)) && occurs(reply, config.agents@[i].name@)
            &&& known && occupied(m, key) ==> occurs(reply, active_agent(m, config, key))
            &&& switches_agent(m, config, key, args) ==> occurs(reply, trimmed(args))
        }),
{
    let target = trimmed(args);
    let current = active_agent(m, config, key);
    let names = agent_names(config.agents@);
    let reply = agent_reply(m, config, key, args);
    let none = Seq::<char>::empty();
    if !names.contains(target) {
        let (a, b) = lemma_part_occurs(names, ", "@, i);
        let rest = joined(names, ", "@);
        assert(reply =~= "Unknown agent: "@ + target + ("\nAvailable: "@ + rest));
        lemma_occurs_in("Unknown agent: "@, target, "\nAvailable: "@ + rest);
        assert(names[i] == config.agents@[i].name@);
        let before = "Unknown agent: "@ + target + "\nAvailable: "@ + a;
        assert(reply =~= before + names[i] + b);
        lemma_occurs_in(before, names[i], b);
    } else if target == current {
        assert(reply =~= "Already using agent: "@ + target + none);
        lemma_occurs_in("Already using agent: "@, target, none);
    } else if occupied(m, key) {
        lemma_occurs_in("Agent "@, current, " is busy. Run /stop first, then switch."@);
    } else {
        lemma_occurs_in("Switched to agent: "@, target, ". New session started."@);
    }
}

/// A conversation is left alone while a turn runs in it, while a request waits
/// for an answer and while messages wait; without any of these it can be
/// changed.
pub proof fn law_occupied_means_something_goes_on(m: EngineModel, key: Seq<char>)
    ensures
        turn_runs(m, key) ==> occupied(m, key),
        awaits_answer(m, key) ==> occupied(m, key),
        !m.states.contains_key(key) ==> !occupied(m, key) && !turn_runs(m, key) && !awaits_answer(
            m,
            key,
        ),
        has_pending(m, key) ==> occupied(m, key),
        occupied(m, key) && !turn_runs(m, key) && !has_pending(m, key)
            ==> m.states[key].has_pending_permission,
{
}

/// An answer waits only within a turn: none is awaited before it, when it starts,
/// or after it.
pub proof fn law_answers_are_awaited_in_a_turn(
    m: EngineModel,
    key: Seq<char>,
    allowed: bool,
    s: SessionModel,
)
    ensures
        !awaits_answer(begun(m, key), key),
        !awaits_answer(ended(m, key, allowed), key),
        !awaits_answer(with_state(m, key, fresh_state(s)), key),
{
}

/// A session is never replaced for idleness where that is switched off, nor
/// where there is an agent session to resume; and the longer it is idle the
/// sooner it is.
pub proof fn law_idle_session_is_replaced(
    minutes: u32,
    s: SessionModel,
    at: Timestamp,
    later: Timestamp,
)
    ensures
        !idle_too_long(0, s, at),
        s.agent_session_id is Some ==> !idle_too_long(minutes, s, at),
        idle_too_long(minutes, s, at) && elapsed_minutes(s.updated_at, later) >= elapsed_minutes(
            s.updated_at,
            at,
        ) ==> idle_too_long(minutes, s, later),
        minutes > 0 && s.agent_session_id is None && elapsed_minutes(s.updated_at, at) == minutes
            ==> idle_too_long(minutes, s, at),
        elapsed_minutes(s.updated_at, at) < minutes ==> !idle_too_long(minutes, s, at),
{
}

/// After an idle session was replaced a new one without a name is at work, in
/// the same directory, with nothing waiting; the sessions of other keys are what
/// they were.
pub proof fn law_replaced_session_starts_afresh(
    m: EngineModel,
    key: Seq<char>,
    lock: nat,
    id: Seq<char>,
    at: Timestamp,
    other: Seq<char>,
)
    requires
        !m.sessions.sessions.contains_key(id),
        other != key,
    ensures
        ({
            let after = replaced_session(m, key, lock, id, at);
            let s = active_session(after.sessions, key)->0;
            &&& active_session(after.sessions, key) is Some
            &&& s.id == id && s.name is None && s.agent_session_id is None
            &&& s.work_dir == work_dir_of(m.sessions, key)
            &&& after.states.contains_key(key) && after.states[key].session.id == id
            &&& after.states[key].pending.len() == 0
            &&& active_session(m.sessions, other) is Some ==> active_session(after.sessions, other)
                == active_session(m.sessions, other)
            &&& after.states.contains_key(other) == m.states.contains_key(other)
            &&& m.states.contains_key(other) ==> after.states[other] == m.states[other]
        }),
{
}

/// The id of an agent session is kept where there is one that can be resumed:
/// not an empty one, and not the word for going on with the last one.
pub proof fn law_session_ids_worth_keeping(sid: Seq<char>)
    ensures
        !keeps_session_id(None),
        !keeps_session_id(Some(Seq::empty())),
        !keeps_session_id(Some(CONTINUE_SESSION@)),
        sid.len() > 0 && sid != CONTINUE_SESSION@ ==> keeps_session_id(Some(sid)),
{
}

/// Custom commands and skills are in the menu by their names, with their
/// descriptions, in their order.
pub proof fn law_menu_shows_commands_and_skills(
    commands: Seq<CommandConfig>,
    skills: Seq<Skill>,
    i: int,
)
    ensures
        custom_menu(commands).len() == commands.len(),
        skill_menu(skills).len() == skills.len(),
        0 <= i < commands.len() ==> custom_menu(commands)[i].0 == commands[i].name@ && custom_menu(
            commands,
        )[i].1 == commands[i].description@,
        0 <= i < skills.len() ==> skill_menu(skills)[i].0 == skills[i].name@ && skill_menu(
            skills,
        )[i].1 == skills[i].description@,
{
}

/// The answer to `/skills` shows each skill by its name, with its description
/// where it has one.
pub proof fn law_skills_are_shown(skills: Seq<Skill>, i: int)
    requires
        0 <= i < skills.len(),
    ensures
        occurs(skills_text(skills), skill_line(skills[i])),
        ("  /"@ + skills[i].name@).is_prefix_of(skill_line(skills[i])),
        skills[i].description@.is_suffix_of(skill_line(skills[i])),
{
    let head = "🎯 可用技能 ("@ + decimal(skills.len()) + "):"@;
    let rows = seq![head] + skills.map_values(|s: Skill| skill_line(s));
    let s = skills[i];
    let line = skill_line(s);
    assert(rows[i + 1] == line);
    let (a, b) = lemma_part_occurs(rows, "\n"@, i + 1);
    lemma_occurs_in(a, line, b);
    let entry = "  /"@ + s.name@;
    assert(entry =~= line.take(entry.len() as int));
    assert(s.description@ =~= line.skip(line.len() - s.description@.len()));
}

/// The answer to `/skills` says how many there are.
pub proof fn law_skills_are_counted(skills: Seq<Skill>)
    requires
        skills.len() > 0,
    ensures
        occurs(skills_text(skills), " ("@ + decimal(skills.len()) + "):"@),
{
    reveal_strlit("🎯 可用技能 (");
    reveal_strlit("🎯 可用技能");
    reveal_strlit(" (");
    let n = decimal(skills.len());
    let start = "🎯 可用技能"@;
    let count = " ("@ + n + "):"@;
    let head = "🎯 可用技能 ("@ + n + "):"@;
    let rows = seq![head] + skills.map_values(|s: Skill| skill_line(s));
    let (c, d) = lemma_part_occurs(rows, "\n"@, 0);
    assert("🎯 可用技能 ("@ =~= start + " ("@);
    assert(head =~= start + count);
    assert(rows[0] == head);
    assert(c + (start + count) + d =~= (c + start) + count + d);
    lemma_occurs_in(c + start, count, d);
}

/// The keys whose sessions want a name are those of Discord whose session has
/// none, and all of them.
pub proof fn law_unnamed_sessions_are_found(list: Seq<(Seq<char>, SessionModel)>, key: Seq<char>)
    ensures
        nameable_keys(list).contains(key) <==> exists|i: int|
            0 <= i < list.len() && (#[trigger] list[i]).0 == key && list[i].1.name is None
                && "discord:"@.is_prefix_of(key),
    decreases list.len(),
{
    let all = nameable_keys(list);
    if list.len() > 0 {
        let front = list.drop_last();
        let before = nameable_keys(front);
        law_unnamed_sessions_are_found(front, key);
        if all.contains(key) {
            let k = choose|k: int| 0 <= k < all.len() && all[k] == key;
            if k < before.len() {
                assert(before[k] == key);
                assert(before.contains(key));
                let i = choose|i: int|
                    0 <= i < front.len() && (#[trigger] front[i]).0 == key && front[i].1.name
                        is None && "discord:"@.is_prefix_of(key);
                assert(list[i].0 == key);
            } else {
                assert(list[list.len() - 1].0 == key);
            }
        }
        if exists|i: int|
            0 <= i < list.len() && (#[trigger] list[i]).0 == key && list[i].1.name is None
                && "discord:"@.is_prefix_of(key) {
            let i = choose|i: int|
                0 <= i < list.len() && (#[trigger] list[i]).0 == key && list[i].1.name is None
                    && "discord:"@.is_prefix_of(key);
            if i < front.len() {
                assert(front[i].0 == key);
                let k = choose|k: int| 0 <= k < before.len() && before[k] == key;
                assert(all[k] == key);
            } else {
                assert(all[before.len() as int] == key);
            }
        }
    }
}

/// The channel of a key is what stands behind the name of its platform.
pub proof fn law_key_names_its_channel(platform: Seq<char>, channel: Seq<char>)
    ensures
        !platform.contains(':') ==> channel_in(platform + seq![':'] + channel) == Some(channel)
            && channel_in(platform) is None,
{
    if !platform.contains(':') {
        let key = platform + seq![':'] + channel;
        assert forall|k: int| 0 <= k < platform.len() implies #[trigger] key[k] != ':' by {
            assert(platform.contains(platform[k]));
        }
        lemma_first_of(key, ':', platform.len() as int);
        assert(key.skip(platform.len() as int + 1) =~= channel);
        assert forall|k: int| 0 <= k < platform.len() implies #[trigger] platform[k] != ':' by {
            assert(platform.contains(platform[k]));
        }
        lemma_first_of(platform, ':', platform.len() as int);
    }
}

/// The answers to `/verbose` for on and off differ, so that the user sees which
/// it is.
pub proof fn law_verbose_answer_tells_the_state()
    ensures
        occurs(verbose_text(true), "详细"@),
        occurs(verbose_text(false), "安静"@),
        verbose_text(true) != verbose_text(false),
{
    reveal_strlit("🔊 详细模式开:会显示工具调用进度和思考过程");
    reveal_strlit("🤫 安静模式开:只发最终回复,过程不显示");
    reveal_strlit("详细");
    reveal_strlit("安静");
    assert(verbose_text(true).subrange(2, 4) =~= "详细"@);
    assert(occurs_at(verbose_text(true), "详细"@, 2));
    assert(verbose_text(false).subrange(2, 4) =~= "安静"@);
    assert(occurs_at(verbose_text(false), "安静"@, 2));
    assert(verbose_text(true)[2] != verbose_text(false)[2]);
}

/// A message passes where no answer is awaited. Where one is, it is the answer if
/// it can be read as one, and asked for again if not; white space around it does
/// not matter.
pub proof fn law_answer_is_taken_where_one_is_awaited(
    m: EngineModel,
    key: Seq<char>,
    text: Seq<char>,
    same: Seq<char>,
)
    ensures
        !awaits_answer(m, key) <==> answer_in(m, key, text) == PermissionAnswer::Pass,
        awaits_answer(m, key) && decision_in(text) is Some ==> answer_in(m, key, text)
            == PermissionAnswer::Decided(decision_in(text)->0),
        awaits_answer(m, key) && decision_in(text) is None ==> answer_in(m, key, text)
            == PermissionAnswer::Unclear,
        trimmed(text) == trimmed(same) ==> decision_in(text) == decision_in(same),
{
}

/// The answers that the reminder names are answers: the first allows, the second
/// denies, the third allows everything.
pub proof fn law_reminder_names_the_answers()
    ensures
        occurs(reminder_text(), "`allow` 允许"@) && decided("allow"@) == Some(
            PermissionDecision::Allow,
        ),
        occurs(reminder_text(), "`deny` 拒绝"@) && decided("deny"@) == Some(
            PermissionDecision::Deny,
        ),
        occurs(reminder_text(), "`allow all` 全部允许"@) && decided("allow all"@) == Some(
            PermissionDecision::AllowAll,
        ),
        reminder().is_prefix_of(reminder_text()),
{
    law_answers_are_unambiguous("allow"@);
    law_answers_are_unambiguous("deny"@);
    law_answers_are_unambiguous("allow all"@);
    reveal_strlit("\n回复 `allow` 允许 / `deny` 拒绝 / `allow all` 全部允许");
    reveal_strlit("`allow` 允许");
    reveal_strlit("`deny` 拒绝");
    reveal_strlit("`allow all` 全部允许");
    let tail = "\n回复 `allow` 允许 / `deny` 拒绝 / `allow all` 全部允许"@;
    let all = reminder_text();
    let n = reminder().len() as int;
    assert(reminder() =~= all.take(n));
    assert(all.subrange(n + 4, n + 14) =~= "`allow` 允许"@);
    assert(occurs_at(all, "`allow` 允许"@, n + 4));
    assert(all.subrange(n + 17, n + 26) =~= "`deny` 拒绝"@);
    assert(occurs_at(all, "`deny` 拒绝"@, n + 17));
    assert(all.subrange(n + 29, n + 45) =~= "`allow all` 全部允许"@);
    assert(occurs_at(all, "`allow all` 全部允许"@, n + 29));
}

/// A channel's name is taken without the white space around it, and not at all
/// where nothing is left of it.
pub proof fn law_channel_name_says_something(name: Seq<char>)
    ensures
        name_given(None) is None,
        name_given(Some(name)) is Some ==> name_given(Some(name)) == Some(trimmed(name))
            && trimmed(name).len() > 0,
        name_given(Some(name)) is None ==> trimmed(name).len() == 0,
{
}

/// A compression that could not be asked for is told as such.
pub proof fn law_compression_is_told()
    ensures
        occurs(compress_text(false), "没有"@),
        occurs(compress_text(true), "已触发"@),
        compress_text(true) != compress_text(false),
{
    reveal_strlit("🗜️ 上下文压缩已触发");
    reveal_strlit("🗜️ 没有运行中的 Agent 会话");
    reveal_strlit("没有");
    reveal_strlit("已触发");
    assert(compress_text(false).subrange(3, 5) =~= "没有"@);
    assert(occurs_at(compress_text(false), "没有"@, 3));
    assert(compress_text(true).subrange(8, 11) =~= "已触发"@);
    assert(occurs_at(compress_text(true), "已触发"@, 8));
    assert(compress_text(true)[3] != compress_text(false)[3]);
}

} // verus!
