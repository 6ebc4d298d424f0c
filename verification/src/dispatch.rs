//! Where a message goes once it is let in: to a waiting permission request, to
//! the agent, to the running turn or into the queue; and which part of the
//! engine takes a command.

use crate::clock::Timestamp;
use crate::commands::{
    bound, built_in, command_done, dispatch, on_sessions, session_command_done, shown_answer,
    Answer, Call, Desk,
};
use crate::config::{AgentEntry, CommandConfig, ProjectConfig};
use crate::control::{awaits_answer, builtin_menu, decision_in, turn_runs, PermissionAnswer};
use crate::engine::{
    active_agent, agent_named, channel_named, cleaned, find_agent, lemma_ensured_keeps_locks,
    locked, opened, place_of, queued, Engine, EngineModel,
};
use crate::message::IncomingMessage;
use crate::routing::{aside, btw_text};
use crate::session::{
    active_session, busy, ensured, has_lock, with_agent_session, with_tmux, work_dir_of,
    ManagerModel, QueuedMessage, Session, MAX_QUEUED_MESSAGES,
};
use crate::text::{lemma_occurs_in, occurs, occurs_at, same, str_opt, text_opt};
use crate::turn::PermissionDecision;
use vstd::prelude::*;
use vstd::string::*;

verus! {

// ---------------------------------------------------------------------------
// Messages
// ---------------------------------------------------------------------------

/// Where a message goes.
pub enum Reception {
    /// It decides a permission request.
    Answer(PermissionDecision),
    /// It comes while a permission request waits, and decides nothing.
    Unclear,
    /// It starts a turn in a session that was locked for it.
    Run(Session),
    /// It is added to the running turn, with this text.
    Inject(String),
    /// It is to wait for the running turn of a session.
    Enqueue(Session),
}

impl Engine {
    /// Decides where a message goes. An answer to a permission request is
    /// taken before the lock is tried, since the session is busy then.
    pub fn receive(&mut self, key: &str, msg: &IncomingMessage) -> (r: Reception)
        requires
            old(self).well_formed(),
        ensures
            final(self).well_formed(),
            final(self).config == old(self).config,
            awaits_answer(old(self)@, key@) ==> final(self)@ == old(self)@ && match decision_in(
                msg.text@,
            ) {
                Some(d) => r == Reception::Answer(d),
                None => r is Unclear,
            },
            !awaits_answer(old(self)@, key@) ==> exists|m: EngineModel| #[trigger]
                opened(old(self)@, key@, m) && ({
                    let session = m.states[key@].session;
                    &&& final(self)@ == locked(
                        channel_named(m, key@, text_opt(msg.channel_name)),
                        session.lock,
                        true,
                    )
                    &&& has_lock(session, final(self)@.sessions.locks)
                    &&& if !busy(session, m.sessions.locks) {
                        r matches Reception::Run(s) && s@ == session
                    } else {
                        match aside(msg.text@) {
                            Some(text) => r matches Reception::Inject(t) && t@ == text,
                            None => r matches Reception::Enqueue(s) && s@ == session,
                        }
                    }
                }),
            !awaits_answer(old(self)@, key@) && turn_runs(old(self)@, key@) && aside(msg.text@)
                is Some ==> (r matches Reception::Inject(t) && Some(t@) == aside(msg.text@)),
    {
        match self.handle_pending_permission(key, msg.text.as_str()) {
            PermissionAnswer::Decided(d) => return Reception::Answer(d),
            PermissionAnswer::Unclear => return Reception::Unclear,
            PermissionAnswer::Pass => {},
        }
        let (session, taken): (Session, bool) = self.take_in(key, &msg.channel_name);
        if taken {
            return Reception::Run(session);
        }
        match btw_text(msg.text.as_str()) {
            Some(text) => Reception::Inject(text),
            None => Reception::Enqueue(session),
        }
    }

    /// Queues a message for the running turn of its key, without attachments;
    /// gives `false` where the queue is full.
    pub fn queue_for_turn(&mut self, key: &str, msg: IncomingMessage) -> (r: bool)
        requires
            old(self).well_formed(),
        ensures
            final(self).well_formed(),
            final(self).config == old(self).config,
            r == (old(self)@.states.contains_key(key@) && old(self)@.states[key@].pending.len()
                < MAX_QUEUED_MESSAGES),
            !r ==> final(self)@ == old(self)@,
            r ==> exists|q: QueuedMessage|
                waits_for(q, msg) && final(self)@ == #[trigger] queued(old(self)@, key@, q),
    {
        let q: QueuedMessage = QueuedMessage {
            text: msg.text,
            images: Vec::new(),
            files: Vec::new(),
            voice: msg.voice,
            from: msg.from,
            reply_ctx: msg.reply_ctx,
        };
        let ghost kept = q;
        let r: bool = self.enqueue(key, q);
        proof {
            if r {
                assert(waits_for(kept, msg));
                assert(self@ == queued(old(self)@, key@, kept));
            }
        }
        r
    }
}

/// Whether a queued message stands for an incoming one.
pub open spec fn waits_for(q: QueuedMessage, msg: IncomingMessage) -> bool {
    &&& q.text == msg.text
    &&& q.images@.len() == 0
    &&& q.files@.len() == 0
    &&& q.voice == msg.voice
    &&& q.from == msg.from
    &&& q.reply_ctx == msg.reply_ctx
}

/// What is said of a text for a running turn.
pub open spec fn injected_text(sent: bool) -> Seq<char> {
    if sent {
        "💬 已注入"@
    } else {
        "💬 注入失败，没有运行中的 Agent"@
    }
}

/// What is said of a message for a busy session.
pub open spec fn queued_text(queued: bool) -> Seq<char> {
    if queued {
        "⏳ 排队中，前面还有任务在跑~"@
    } else {
        "🚫 队列满了，等一下再发吧"@
    }
}

/// What is said where the handling of a message failed.
pub open spec fn failed_text(error: Seq<char>) -> Seq<char> {
    "💥 出错了: "@ + error
}

/// The answer to a text that was to be added to a running turn, and whether it
/// quotes the message.
pub fn inject_reply(sent: bool) -> (r: (String, bool))
    ensures
        r.0@ == injected_text(sent),
        r.1 == sent,
{
    if sent {
        ("💬 已注入".to_owned(), true)
    } else {
        ("💬 注入失败，没有运行中的 Agent".to_owned(), false)
    }
}

/// The answer to a message for a busy session, and whether it quotes the
/// message.
pub fn queue_reply(queued: bool) -> (r: (String, bool))
    ensures
        r.0@ == queued_text(queued),
        r.1 == queued,
{
    if queued {
        ("⏳ 排队中，前面还有任务在跑~".to_owned(), true)
    } else {
        ("🚫 队列满了，等一下再发吧".to_owned(), false)
    }
}

/// The answer to a message whose handling failed.
pub fn failure_reply(error: &str) -> (r: String)
    ensures
        r@ == failed_text(error@),
{
    let mut r: String = "💥 出错了: ".to_owned();
    r.append(error);
    r
}

// ---------------------------------------------------------------------------
// Commands
// ---------------------------------------------------------------------------

/// Which part of the engine takes a command.
#[derive(PartialEq, Eq, Structural, Clone, Copy, Debug)]
pub enum CommandRoute {
    /// The choice of an agent.
    Agent,
    /// Compression of the agent's context.
    Compress,
    /// The end of the running turn.
    Stop,
    /// The verbose switch; `quiet` turns it off.
    Verbose { quiet: bool },
    /// The list of skills.
    Skills,
    /// The commands on sessions and settings.
    BuiltIn,
}

pub open spec fn command_route(name: Seq<char>) -> CommandRoute {
    if name == "agent"@ {
        CommandRoute::Agent
    } else if name == "compress"@ || name == "compact"@ {
        CommandRoute::Compress
    } else if name == "stop"@ || name == "cancel"@ {
        CommandRoute::Stop
    } else if name == "verbose"@ {
        CommandRoute::Verbose { quiet: false }
    } else if name == "quiet"@ {
        CommandRoute::Verbose { quiet: true }
    } else if name == "skills"@ {
        CommandRoute::Skills
    } else {
        CommandRoute::BuiltIn
    }
}

/// The part of the engine that takes the command of a name.
pub fn route_command(name: &str) -> (r: CommandRoute)
    ensures
        r == command_route(name@),
{
    proof {
        reveal_strlit("verbose");
        reveal_strlit("quiet");
    }
    if same(name, "agent") {
        CommandRoute::Agent
    } else if same(name, "compress") || same(name, "compact") {
        CommandRoute::Compress
    } else if same(name, "stop") || same(name, "cancel") {
        CommandRoute::Stop
    } else if same(name, "verbose") {
        CommandRoute::Verbose { quiet: false }
    } else if same(name, "quiet") {
        CommandRoute::Verbose { quiet: true }
    } else if same(name, "skills") {
        CommandRoute::Skills
    } else {
        CommandRoute::BuiltIn
    }
}

/// The answer to `/stop`.
pub fn stop_reply() -> (r: String)
    ensures
        r@ == "🛑 已中断当前任务"@,
{
    "🛑 已中断当前任务".to_owned()
}

/// Whether a command that was carried out changes the session or the directory
/// that the agent works in.
pub open spec fn moves_agent(name: Seq<char>) -> bool {
    ||| name == "new"@
    ||| name == "switch"@
    ||| name == "delete"@
    ||| name == "dir"@
    ||| name == "cd"@
    ||| name == "attach"@
    ||| name == "resume"@
}

/// Whether the running agent is closed after a command, so that the next
/// message finds a fresh one in the right place.
pub fn resets_agent(name: &str) -> (r: bool)
    ensures
        r == moves_agent(name@),
{
    same(name, "new") || same(name, "switch") || same(name, "delete") || same(name, "dir")
        || same(name, "cd") || same(name, "attach") || same(name, "resume")
}

// ---------------------------------------------------------------------------
// Agents
// ---------------------------------------------------------------------------

/// What an agent is started with.
pub struct StartRequest<'a> {
    pub entry: &'a AgentEntry,
    /// The agent session to resume.
    pub resume: Option<String>,
    pub model: Option<&'a str>,
    /// The permission mode, where one is set.
    pub mode: Option<&'a str>,
    pub work_dir: Option<String>,
    pub tmux_session: Option<String>,
}

/// The agent session that is resumed for a key: the stored one, where one is
/// to be resumed.
pub open spec fn resume_for(m: ManagerModel, key: Seq<char>, resume: bool) -> Option<Seq<char>> {
    match active_session(m, key) {
        Some(s) => if resume {
            s.agent_session_id
        } else {
            None
        },
        None => None,
    }
}

/// The permission mode that an agent is started with: none where none is set.
pub open spec fn mode_given(mode: Seq<char>) -> Option<Seq<char>> {
    if mode.len() == 0 {
        None
    } else {
        Some(mode)
    }
}

/// What is said of an agent that there is not.
pub open spec fn unknown_text(agent: Seq<char>) -> Seq<char> {
    "unknown active agent: "@ + agent
}

/// The tmux session that a key is bound to.
pub open spec fn tmux_of(m: ManagerModel, key: Seq<char>) -> Option<Seq<char>> {
    match active_session(m, key) {
        Some(s) => s.tmux_session,
        None => None,
    }
}

impl Engine {
    /// What the agent of a key is started with, or why there is none. The
    /// stored agent session is resumed where `resume` is set.
    pub fn start_request<'a>(
        &'a self,
        key: &str,
        resume: bool,
        model: Option<&'a str>,
        mode: &'a str,
    ) -> (r: Result<StartRequest<'a>, String>)
        requires
            self.well_formed(),
        ensures
            match agent_named(self.config.agents@, active_agent(self@, self.config, key@)) {
                None => r matches Err(e) && e@ == unknown_text(
                    active_agent(self@, self.config, key@),
                ),
                Some(entry) => {
                    &&& r matches Ok(q)
                    &&& *q.entry == entry
                    &&& text_opt(q.resume) == resume_for(self@.sessions, key@, resume)
                    &&& q.model == model
                    &&& str_opt(q.mode) == mode_given(mode@)
                    &&& text_opt(q.work_dir) == work_dir_of(self@.sessions, key@)
                    &&& text_opt(q.tmux_session) == tmux_of(self@.sessions, key@)
                },
            },
    {
        let name: String = self.resolve_active_agent(key);
        match find_agent(&self.config, name.as_str()) {
            None => {
                let mut e: String = "unknown active agent: ".to_owned();
                e.append(name.as_str());
                Err(e)
            },
            Some(entry) => Ok(
                StartRequest {
                    entry,
                    resume: if resume {
                        self.sessions.get_agent_session_id(key)
                    } else {
                        None
                    },
                    model,
                    mode: if mode.is_empty() {
                        None
                    } else {
                        Some(mode)
                    },
                    work_dir: self.sessions.get_work_dir(key),
                    tmux_session: self.sessions.get_tmux_session(key),
                },
            ),
        }
    }
}

// ---------------------------------------------------------------------------
// Built-in commands
// ---------------------------------------------------------------------------

/// What a command may read and change of the engine.
pub open spec fn desk_of(m: EngineModel) -> Desk {
    Desk { sessions: m.sessions, models: m.models, modes: m.modes }
}

/// No command takes a lock away.
proof fn lemma_command_keeps_locks(
    config: ProjectConfig,
    d: Desk,
    after: ManagerModel,
    call: Call,
    answer: Answer<Seq<char>>,
)
    requires
        session_command_done(config, d, after, call, answer),
    ensures
        d.sessions.locks.len() <= after.locks.len(),
{
    let m = d.sessions;
    let key = call.key;
    assert forall|x: ManagerModel, y: ManagerModel| #[trigger]
        ensured(x, key, y) implies x.locks.len() <= y.locks.len() by {
        lemma_ensured_keeps_locks(x, key, y);
    }
}

impl Engine {
    /// Carries out a built-in command of a key with its agent; gives nothing
    /// where it is none.
    pub fn run_command(&mut self, key: &str, cmd: &str, args: &str) -> (r: Option<Answer<String>>)
        requires
            old(self).well_formed(),
        ensures
            final(self).well_formed(),
            final(self).config == old(self).config,
            r is Some <==> built_in(cmd@),
            r is None ==> final(self)@ == old(self)@,
            final(self)@ == (EngineModel {
                sessions: final(self)@.sessions,
                models: final(self)@.models,
                modes: final(self)@.modes,
                ..old(self)@
            }),
            r is Some ==> command_done(
                old(self).config,
                old(self).config.commands@,
                desk_of(old(self)@),
                desk_of(final(self)@),
                (Call {
                    cmd: cmd@,
                    args: args@,
                    key: key@,
                    agent: active_agent(old(self)@, old(self).config, key@),
                }),
                shown_answer(r->0),
            ),
    {
        let agent: String = self.resolve_active_agent(key);
        let r: Option<Answer<String>> = dispatch(
            cmd,
            args,
            &self.config,
            &mut self.sessions,
            key,
            agent.as_str(),
            &mut self.model_override,
            &mut self.mode_override,
            &self.config.commands,
        );
        proof {
            let call = Call { cmd: cmd@, args: args@, key: key@, agent: agent@ };
            if r is Some && on_sessions(cmd@) {
                lemma_command_keeps_locks(
                    self.config,
                    desk_of(old(self)@),
                    self@.sessions,
                    call,
                    shown_answer(r->0),
                );
            }
        }
        r
    }

    /// Ends the conversation of a key after a command that moved its agent.
    /// Gives the work directory and the tmux session under which its hooks are
    /// bound.
    pub fn after_command(&mut self, key: &str, cmd: &str) -> (r: Option<(String, Option<String>)>)
        requires
            old(self).well_formed(),
        ensures
            final(self).well_formed(),
            final(self).config == old(self).config,
            r is Some <==> moves_agent(cmd@),
            final(self)@ == if moves_agent(cmd@) {
                cleaned(old(self)@, key@)
            } else {
                old(self)@
            },
            r is Some ==> (r->0).0@ == place_of(old(self)@, old(self).config, key@) && text_opt(
                (r->0).1,
            ) == tmux_of(old(self)@.sessions, key@),
    {
        if resets_agent(cmd) {
            Some(self.cleanup_agent_session(key))
        } else {
            None
        }
    }
}

// ---------------------------------------------------------------------------
// Laws
// ---------------------------------------------------------------------------

/// Bad news is told as such: an injection that failed, a queue that is full and
/// an error each differ from what is said when all went well, and an error is
/// told in its own words.
pub proof fn law_failures_are_told(error: Seq<char>)
    ensures
        occurs(injected_text(false), "失败"@),
        !occurs(injected_text(true), "失败"@),
        occurs(queued_text(true), "排队"@),
        occurs(queued_text(false), "满"@),
        occurs(failed_text(error), error),
{
    reveal_strlit("💬 注入失败，没有运行中的 Agent");
    reveal_strlit("💬 已注入");
    reveal_strlit("失败");
    reveal_strlit("⏳ 排队中，前面还有任务在跑~");
    reveal_strlit("排队");
    reveal_strlit("🚫 队列满了，等一下再发吧");
    reveal_strlit("满");
    assert(injected_text(false).subrange(4, 6) =~= "失败"@);
    assert(occurs_at(injected_text(false), "失败"@, 4));
    assert forall|i: int| !(#[trigger] occurs_at(injected_text(true), "失败"@, i)) by {
        if occurs_at(injected_text(true), "失败"@, i) {
            assert(injected_text(true).subrange(i, i + 2)[0] == "失败"@[0]);
        }
    }
    assert(queued_text(true).subrange(2, 4) =~= "排队"@);
    assert(occurs_at(queued_text(true), "排队"@, 2));
    assert(queued_text(false).subrange(4, 5) =~= "满"@);
    assert(occurs_at(queued_text(false), "满"@, 4));
    let head = "💥 出错了: "@;
    lemma_occurs_in(head, error, Seq::empty());
    assert(head + error + Seq::<char>::empty() =~= head + error);
}

/// What was stored for a key is what its agent resumes, and nothing is resumed
/// where that is not asked for, or after a binding to a tmux session, which is
/// then the one it works in.
pub proof fn law_stored_session_is_resumed(
    m: ManagerModel,
    key: Seq<char>,
    sid: Seq<char>,
    tmux: Seq<char>,
    at: Timestamp,
)
    requires
        active_session(m, key) is Some,
        sid.len() > 0,
    ensures
        resume_for(with_agent_session(m, key, sid, at), key, true) == Some(sid),
        resume_for(m, key, false) is None,
        tmux_of(with_tmux(m, key, tmux, at), key) == Some(tmux),
        tmux_of(with_agent_session(m, key, sid, at), key) == tmux_of(m, key),
        forall|after: ManagerModel| #[trigger]
            bound(m, after, key, tmux) ==> tmux_of(after, key) == Some(tmux) && resume_for(
                after,
                key,
                true,
            ) is None,
{
    assert forall|after: ManagerModel| #[trigger] bound(m, after, key, tmux) implies tmux_of(
        after,
        key,
    ) == Some(tmux) && resume_for(after, key, true) is None by {
        let (m1, m2, at1, at2) = choose|
            m1: ManagerModel,
            m2: ManagerModel,
            at1: Timestamp,
            at2: Timestamp,
        |
            ensured(m, key, m1) && m2 == #[trigger] with_tmux(m1, key, tmux, at1) && after
                == #[trigger] with_agent_session(m2, key, Seq::empty(), at2);
    }
}

/// A command after which the agent stays leaves its place alone: the active
/// session, its directory, its tmux session and what it would resume are as they
/// were.
pub proof fn law_agent_stays_where_nothing_moved(
    config: ProjectConfig,
    commands: Seq<CommandConfig>,
    d: Desk,
    after: Desk,
    call: Call,
    answer: Answer<Seq<char>>,
)
    requires
        command_done(config, commands, d, after, call, answer),
        !moves_agent(call.cmd),
        active_session(d.sessions, call.key) is Some,
    ensures
        after.sessions.active == d.sessions.active,
        work_dir_of(after.sessions, call.key) == work_dir_of(d.sessions, call.key),
        tmux_of(after.sessions, call.key) == tmux_of(d.sessions, call.key),
        resume_for(after.sessions, call.key, true) == resume_for(d.sessions, call.key, true),
{
}

/// Commands that only show something, and the choice of a model or a mode, keep
/// the agent.
pub proof fn law_looking_keeps_the_agent()
    ensures
        forall|c: Seq<char>| #[trigger] moves_agent(c) ==> built_in(c),
        !moves_agent("help"@) && !moves_agent("status"@) && !moves_agent("list"@),
        !moves_agent("current"@) && !moves_agent("history"@) && !moves_agent("name"@),
        !moves_agent("model"@) && !moves_agent("mode"@) && !moves_agent("cron"@),
{
    reveal_strlit("help");
    reveal_strlit("status");
    reveal_strlit("list");
    reveal_strlit("current");
    reveal_strlit("history");
    reveal_strlit("name");
    reveal_strlit("model");
    reveal_strlit("mode");
    reveal_strlit("cron");
    reveal_strlit("new");
    reveal_strlit("switch");
    reveal_strlit("delete");
    reveal_strlit("dir");
    reveal_strlit("cd");
    reveal_strlit("attach");
    reveal_strlit("resume");
    assert("help"@.len() == 4 && "status"@.len() == 6 && "list"@.len() == 4
        && "current"@.len() == 7 && "history"@.len() == 7 && "name"@.len() == 4
        && "model"@.len() == 5 && "mode"@.len() == 4 && "cron"@.len() == 4 && "new"@.len() == 3
        && "switch"@.len() == 6 && "delete"@.len() == 6 && "dir"@.len() == 3 && "cd"@.len() == 2
        && "attach"@.len() == 6 && "resume"@.len() == 6);
    assert("status"@[1] == 't' && "switch"@[1] == 'w' && "delete"@[1] == 'e' && "attach"@[0] == 'a'
        && "resume"@[0] == 'r');
}

/// Every command of the menu is carried out: by the engine itself, or as one of
/// those on sessions and settings.
pub proof fn law_menu_is_carried_out(i: int)
    requires
        0 <= i < builtin_menu().len(),
    ensures
        command_route(builtin_menu()[i].0) != CommandRoute::BuiltIn || built_in(
            builtin_menu()[i].0,
        ),
{
}

/// Each command of the engine has its own route, under one name or two, and
/// nothing else has: `/quiet` and `/verbose` differ in what they ask for.
pub proof fn law_routes_are_told_apart(name: Seq<char>)
    ensures
        command_route(name) == CommandRoute::Stop <==> name == "stop"@ || name == "cancel"@,
        command_route(name) == CommandRoute::Compress <==> name == "compress"@ || name
            == "compact"@,
        command_route(name) == (CommandRoute::Verbose { quiet: true }) <==> name == "quiet"@,
        command_route(name) == (CommandRoute::Verbose { quiet: false }) <==> name == "verbose"@,
        command_route(name) == CommandRoute::Agent <==> name == "agent"@,
        command_route(name) == CommandRoute::Skills <==> name == "skills"@,
        built_in(name) ==> command_route(name) == CommandRoute::BuiltIn,
{
    reveal_strlit("agent");
    reveal_strlit("compress");
    reveal_strlit("compact");
    reveal_strlit("stop");
    reveal_strlit("cancel");
    reveal_strlit("verbose");
    reveal_strlit("quiet");
    reveal_strlit("skills");
    reveal_strlit("help");
    reveal_strlit("start");
    reveal_strlit("status");
    reveal_strlit("new");
    reveal_strlit("list");
    reveal_strlit("switch");
    reveal_strlit("resume");
    reveal_strlit("current");
    reveal_strlit("delete");
    reveal_strlit("model");
    reveal_strlit("mode");
    reveal_strlit("cron");
    reveal_strlit("commands");
    reveal_strlit("name");
    reveal_strlit("rename");
    reveal_strlit("history");
    reveal_strlit("dir");
    reveal_strlit("cd");
    reveal_strlit("attach");
    reveal_strlit("sync");
    assert("agent"@.len() == 5 && "compress"@.len() == 8 && "compact"@.len() == 7
        && "stop"@.len() == 4 && "cancel"@.len() == 6 && "verbose"@.len() == 7
        && "quiet"@.len() == 5 && "skills"@.len() == 6 && "help"@.len() == 4
        && "start"@.len() == 5 && "status"@.len() == 6 && "new"@.len() == 3
        && "list"@.len() == 4 && "switch"@.len() == 6 && "resume"@.len() == 6
        && "current"@.len() == 7 && "delete"@.len() == 6 && "model"@.len() == 5
        && "mode"@.len() == 4 && "cron"@.len() == 4 && "commands"@.len() == 8
        && "name"@.len() == 4 && "rename"@.len() == 6 && "history"@.len() == 7
        && "dir"@.len() == 3 && "cd"@.len() == 2 && "attach"@.len() == 6 && "sync"@.len() == 4);
    assert("agent"@[1] == 'g' && "compress"@[3] == 'p' && "compact"@[3] == 'p' && "stop"@[1] == 't'
        && "cancel"@[1] == 'a' && "verbose"@[0] == 'v' && "quiet"@[0] == 'q' && "skills"@[1]
        == 'k');
    assert("start"@[1] == 't' && "status"@[1] == 't' && "switch"@[1] == 'w' && "resume"@[1] == 'e'
        && "current"@[1] == 'u' && "delete"@[1] == 'e' && "model"@[1] == 'o' && "commands"@[3]
        == 'm' && "rename"@[1] == 'e' && "history"@[1] == 'i' && "attach"@[1] == 't' && "sync"@[1]
        == 'y' && "help"@[1] == 'e' && "list"@[1] == 'i' && "mode"@[1] == 'o' && "cron"@[1] == 'r'
        && "name"@[1] == 'a');
}

/// A mode is handed on where one is set; an agent that there is not is told by
/// its name.
pub proof fn law_mode_is_handed_on(mode: Seq<char>, agent: Seq<char>)
    ensures
        mode.len() > 0 ==> mode_given(mode) == Some(mode),
        mode_given(Seq::empty()) is None,
        agent.is_suffix_of(unknown_text(agent)),
{
    let t = unknown_text(agent);
    assert(agent =~= t.skip(t.len() - agent.len()));
}

/// A message that waits keeps its words, its sender and the way back to them; its
/// attachments are not kept.
pub proof fn law_waiting_message_keeps_its_words(q: QueuedMessage, msg: IncomingMessage)
    requires
        waits_for(q, msg),
    ensures
        q.text@ == msg.text@,
        q.from@ == msg.from@,
        q.reply_ctx == msg.reply_ctx,
        q.voice == msg.voice,
        q.images@.len() == 0 && q.files@.len() == 0,
{
}

} // verus!
