//! The way of a message through the agent, and of the queued ones after it.
//!
//! A [`Work`] owns the session's lock from beginning to end. It sees that an
//! agent runs, sends the message, has the turn run, tries once more with a
//! fresh agent where a resumed one died without a word, and then works off the
//! queue. Starting agents, sending and running turns happen outside and come
//! back as [`WorkInput`]s.

use crate::config::ProjectConfig;
use crate::text::{lemma_occurs_in, occurs};
use vstd::prelude::*;
use vstd::string::*;

verus! {

/// Something to do for the message at hand. `S` is a text.
pub enum WorkAction<S> {
    StartTyping,
    StopTyping,
    /// Start an agent; where `resume` is set, from the stored agent session.
    StartAgent { resume: bool },
    /// Discard stale events, send a prompt to the agent and take its events.
    Send(S),
    /// Run the turn; `/stop` reaches it only where `stoppable` is set.
    RunTurn { stoppable: bool },
    /// Store the turn's allow-all choice and clear its permission state.
    EndTurn,
    /// Give the agent its events back.
    ReturnEvents,
    /// Forget the agent session that could not be resumed.
    ForgetAgentSession,
    Reply(S),
    /// Push sessions elsewhere.
    SyncPush,
    /// Have the agent compress its context.
    Compact,
    /// Take the next queued message, or release the session.
    NextMessage,
    /// Ask whether the agent still lives.
    CheckAgent,
    /// Drop the queue, telling each sender.
    DropQueue(S),
    /// Release the session.
    Unlock,
}

/// An action by its contents.
pub open spec fn shown_work(a: WorkAction<String>) -> WorkAction<Seq<char>> {
    match a {
        WorkAction::StartTyping => WorkAction::StartTyping,
        WorkAction::StopTyping => WorkAction::StopTyping,
        WorkAction::StartAgent { resume } => WorkAction::StartAgent { resume },
        WorkAction::Send(s) => WorkAction::Send(s@),
        WorkAction::RunTurn { stoppable } => WorkAction::RunTurn { stoppable },
        WorkAction::EndTurn => WorkAction::EndTurn,
        WorkAction::ReturnEvents => WorkAction::ReturnEvents,
        WorkAction::ForgetAgentSession => WorkAction::ForgetAgentSession,
        WorkAction::Reply(s) => WorkAction::Reply(s@),
        WorkAction::SyncPush => WorkAction::SyncPush,
        WorkAction::Compact => WorkAction::Compact,
        WorkAction::NextMessage => WorkAction::NextMessage,
        WorkAction::CheckAgent => WorkAction::CheckAgent,
        WorkAction::DropQueue(s) => WorkAction::DropQueue(s@),
        WorkAction::Unlock => WorkAction::Unlock,
    }
}

/// The contents of each action in a list.
pub open spec fn all_work(v: Seq<WorkAction<String>>) -> Seq<WorkAction<Seq<char>>> {
    v.map_values(|a: WorkAction<String>| shown_work(a))
}

/// How sending a prompt went.
pub enum Sent {
    /// The conversation is gone.
    Lost,
    /// The conversation has no agent.
    NoAgent,
    Failed(String),
    /// The agent's events are in other hands.
    NoEvents,
    /// The agent works on the prompt.
    Running,
}

/// What a turn came to.
#[derive(Clone, Copy, Debug)]
pub struct TurnEnd {
    /// The input tokens that it took.
    pub tokens: u32,
    /// Whether it brought no text.
    pub silent: bool,
}

/// What came of an action.
pub enum WorkInput {
    /// Whether the key has a conversation, and whether its agent lives.
    Found { state: bool, alive: bool },
    /// An agent was started, or what went wrong; nothing where the
    /// conversation is gone.
    Started(Option<Result<(), String>>),
    Sent(Sent),
    /// A turn ended: its result, where it had one, and whether the agent still
    /// lives.
    Ended { result: Option<TurnEnd>, alive: bool },
    /// The next queued message.
    Next(Option<String>),
    /// Whether the agent still lives.
    Agent(bool),
}

/// What a work waits for.
#[derive(PartialEq, Eq, Structural, Clone, Copy, Debug)]
pub enum WorkPhase {
    /// Whether there is a conversation to work in.
    Opening,
    Starting,
    Sending,
    Running,
    /// The fresh agent for the second try.
    Restarting,
    Resending,
    Rerunning,
    /// Whether there is a queue to work off.
    Adopting,
    /// The next queued message.
    Draining,
    CheckingAgent,
    DrainStarting,
    DrainSending,
    DrainRunning,
    /// The session is released.
    Done,
}

/// Whether `input` is one that a work in `phase` can get.
///
/// In the first phases the conversation cannot go away, and an agent that was
/// just started has its events.
pub open spec fn awaits(phase: WorkPhase, input: WorkInput) -> bool {
    match phase {
        WorkPhase::Opening | WorkPhase::Adopting => input is Found,
        WorkPhase::Starting => input matches WorkInput::Started(Some(_)),
        WorkPhase::Sending => input matches WorkInput::Sent(s) && !(s is Lost) && !(s is NoAgent),
        WorkPhase::Running | WorkPhase::Rerunning | WorkPhase::DrainRunning => input is Ended,
        WorkPhase::Restarting => input is Started,
        WorkPhase::Resending => input matches WorkInput::Sent(s) && !(s is NoAgent) && !(
        s is NoEvents),
        WorkPhase::Draining => input is Next,
        WorkPhase::CheckingAgent => input is Agent,
        WorkPhase::DrainStarting => input matches WorkInput::Started(Some(_)),
        WorkPhase::DrainSending => input is Sent,
        WorkPhase::Done => false,
    }
}

/// The state of a work.
pub struct WorkModel {
    pub phase: WorkPhase,
    /// The prompt of the message at hand.
    pub text: Seq<char>,
    /// The input tokens of the first turn, where it had a result.
    pub tokens: Option<u32>,
}

pub type Acts = Seq<WorkAction<Seq<char>>>;

/// No actions.
pub open spec fn idle() -> Acts {
    Seq::empty()
}

pub open spec fn in_phase(m: WorkModel, phase: WorkPhase) -> WorkModel {
    WorkModel { phase, ..m }
}

/// Whether the context is due for compression after a turn with these tokens.
pub open spec fn compresses(config: ProjectConfig, tokens: Option<u32>) -> bool {
    config.auto_compress.enabled && tokens is Some && tokens->0 > config.auto_compress.max_tokens
}

/// What follows the first message, after `acts`: synchronisation and
/// compression where they are due, then the queue.
pub open spec fn settled(m: WorkModel, config: ProjectConfig, acts: Acts) -> (WorkModel, Acts) {
    let pushed = if config.sync_auto == Some(true) {
        acts.push(WorkAction::SyncPush)
    } else {
        acts
    };
    let compressed = if compresses(config, m.tokens) {
        pushed.push(WorkAction::Compact)
    } else {
        pushed
    };
    (in_phase(m, WorkPhase::Draining), compressed.push(WorkAction::NextMessage))
}

pub open spec fn after_opening(m: WorkModel, state: bool, alive: bool) -> (WorkModel, Acts) {
    if !state {
        (in_phase(m, WorkPhase::Done), idle().push(WorkAction::Unlock))
    } else if !alive {
        (in_phase(m, WorkPhase::Starting), idle().push(WorkAction::StartAgent { resume: true }))
    } else {
        (in_phase(m, WorkPhase::Sending), idle().push(WorkAction::Send(m.text)))
    }
}

/// The first message failed: its sender is told, and the session released.
pub open spec fn abandoned(m: WorkModel, reply: Seq<char>) -> (WorkModel, Acts) {
    (
        in_phase(m, WorkPhase::Done),
        idle().push(WorkAction::StopTyping).push(WorkAction::Reply(reply)).push(WorkAction::Unlock),
    )
}

pub open spec fn after_starting(m: WorkModel, started: Result<(), String>) -> (WorkModel, Acts) {
    match started {
        Ok(_) => (in_phase(m, WorkPhase::Sending), idle().push(WorkAction::Send(m.text))),
        Err(e) => abandoned(m, "💥 Agent 启动失败: "@ + e@),
    }
}

pub open spec fn after_sending(m: WorkModel, sent: Sent) -> (WorkModel, Acts) {
    match sent {
        Sent::Failed(e) => abandoned(m, "💥 发送失败: "@ + e@),
        Sent::NoEvents => abandoned(m, "💥 Agent 会话异常，发 /new 重建"@),
        _ => (
            in_phase(m, WorkPhase::Running),
            idle().push(WorkAction::RunTurn { stoppable: true }),
        ),
    }
}

pub open spec fn after_turn(
    m: WorkModel,
    config: ProjectConfig,
    result: Option<TurnEnd>,
    alive: bool,
) -> (WorkModel, Acts) {
    let m1 = WorkModel {
        tokens: match result {
            Some(r) => Some(r.tokens),
            None => None,
        },
        ..m
    };
    if !alive && (result is None || result->0.silent) {
        (
            in_phase(m1, WorkPhase::Restarting),
            idle().push(WorkAction::ForgetAgentSession).push(
                WorkAction::StartAgent { resume: false },
            ),
        )
    } else {
        settled(m1, config, idle().push(WorkAction::EndTurn).push(WorkAction::ReturnEvents))
    }
}

pub open spec fn after_restart(
    m: WorkModel,
    config: ProjectConfig,
    started: Option<Result<(), String>>,
) -> (WorkModel, Acts) {
    match started {
        Some(Ok(_)) => (
            in_phase(m, WorkPhase::Resending),
            idle().push(WorkAction::Send(m.text)),
        ),
        Some(Err(e)) => settled(
            m,
            config,
            idle().push(WorkAction::Reply("💥 Agent 启动失败: "@ + e@)),
        ),
        None => settled(m, config, idle()),
    }
}

pub open spec fn after_resending(m: WorkModel, config: ProjectConfig, sent: Sent) -> (
    WorkModel,
    Acts,
) {
    match sent {
        Sent::Running => (
            in_phase(m, WorkPhase::Rerunning),
            idle().push(WorkAction::StartTyping).push(WorkAction::RunTurn { stoppable: false }),
        ),
        _ => settled(m, config, idle()),
    }
}

pub open spec fn after_rerun(m: WorkModel, config: ProjectConfig) -> (WorkModel, Acts) {
    settled(m, config, idle().push(WorkAction::ReturnEvents).push(WorkAction::EndTurn))
}

pub open spec fn after_adopting(m: WorkModel, state: bool, alive: bool) -> (WorkModel, Acts) {
    if !state || !alive {
        (in_phase(m, WorkPhase::Done), idle().push(WorkAction::Unlock))
    } else {
        (in_phase(m, WorkPhase::Draining), idle().push(WorkAction::NextMessage))
    }
}

/// With nothing left in the queue the session is already released.
pub open spec fn after_draining(m: WorkModel, next: Option<Seq<char>>) -> (WorkModel, Acts) {
    match next {
        None => (in_phase(m, WorkPhase::Done), idle()),
        Some(text) => (
            WorkModel { phase: WorkPhase::CheckingAgent, text, ..m },
            idle().push(WorkAction::CheckAgent),
        ),
    }
}

pub open spec fn after_check(m: WorkModel, alive: bool) -> (WorkModel, Acts) {
    if alive {
        (in_phase(m, WorkPhase::DrainSending), idle().push(WorkAction::Send(m.text)))
    } else {
        (
            in_phase(m, WorkPhase::DrainStarting),
            idle().push(WorkAction::StartAgent { resume: true }),
        )
    }
}

pub open spec fn after_drain_start(m: WorkModel, started: Result<(), String>) -> (WorkModel, Acts) {
    match started {
        Ok(_) => (in_phase(m, WorkPhase::DrainSending), idle().push(WorkAction::Send(m.text))),
        Err(e) => (
            in_phase(m, WorkPhase::Done),
            idle().push(WorkAction::Reply("💥 Agent 会话已断开: "@ + e@)).push(
                WorkAction::DropQueue("💤 Agent 已断开，排队消息已丢弃"@),
            ).push(WorkAction::Unlock),
        ),
    }
}

pub open spec fn after_drain_send(m: WorkModel, sent: Sent) -> (WorkModel, Acts) {
    match sent {
        Sent::Lost | Sent::NoEvents => (
            in_phase(m, WorkPhase::Done),
            idle().push(WorkAction::Unlock),
        ),
        Sent::NoAgent => (
            in_phase(m, WorkPhase::Done),
            idle().push(WorkAction::Reply("💥 没有活跃的 Agent 会话"@)).push(WorkAction::Unlock),
        ),
        Sent::Failed(e) => (
            in_phase(m, WorkPhase::Done),
            idle().push(WorkAction::Reply("💥 发送排队消息失败: "@ + e@)).push(WorkAction::Unlock),
        ),
        Sent::Running => (
            in_phase(m, WorkPhase::DrainRunning),
            idle().push(WorkAction::StartTyping).push(WorkAction::RunTurn { stoppable: true }),
        ),
    }
}

pub open spec fn after_drain_turn(m: WorkModel) -> (WorkModel, Acts) {
    (
        in_phase(m, WorkPhase::Draining),
        idle().push(WorkAction::EndTurn).push(WorkAction::ReturnEvents).push(
            WorkAction::NextMessage,
        ),
    )
}

/// The next state of a work, and what is to be done, for an input that it
/// waits for.
pub open spec fn next_work(m: WorkModel, config: ProjectConfig, input: WorkInput) -> (
    WorkModel,
    Acts,
) {
    match (m.phase, input) {
        (WorkPhase::Opening, WorkInput::Found { state, alive }) => after_opening(m, state, alive),
        (WorkPhase::Starting, WorkInput::Started(Some(s))) => after_starting(m, s),
        (WorkPhase::Sending, WorkInput::Sent(s)) => after_sending(m, s),
        (WorkPhase::Running, WorkInput::Ended { result, alive }) => after_turn(
            m,
            config,
            result,
            alive,
        ),
        (WorkPhase::Restarting, WorkInput::Started(s)) => after_restart(m, config, s),
        (WorkPhase::Resending, WorkInput::Sent(s)) => after_resending(m, config, s),
        (WorkPhase::Rerunning, WorkInput::Ended { result, alive }) => after_rerun(m, config),
        (WorkPhase::Adopting, WorkInput::Found { state, alive }) => after_adopting(
            m,
            state,
            alive,
        ),
        (WorkPhase::Draining, WorkInput::Next(next)) => after_draining(
            m,
            match next {
                Some(t) => Some(t@),
                None => None,
            },
        ),
        (WorkPhase::CheckingAgent, WorkInput::Agent(alive)) => after_check(m, alive),
        (WorkPhase::DrainStarting, WorkInput::Started(Some(s))) => after_drain_start(m, s),
        (WorkPhase::DrainSending, WorkInput::Sent(s)) => after_drain_send(m, s),
        (WorkPhase::DrainRunning, WorkInput::Ended { result, alive }) => after_drain_turn(m),
        _ => (m, idle()),
    }
}

/// A message on its way through the agent.
pub struct Work {
    pub phase: WorkPhase,
    pub text: String,
    pub tokens: Option<u32>,
}

impl View for Work {
    type V = WorkModel;

    open spec fn view(&self) -> WorkModel {
        WorkModel { phase: self.phase, text: self.text@, tokens: self.tokens }
    }
}

type Out = Vec<WorkAction<String>>;

fn nothing() -> (r: Out)
    ensures
        all_work(r@) == idle(),
{
    let r: Out = Vec::new();
    assert(all_work(r@) =~= idle());
    r
}

fn with(out: Out, a: WorkAction<String>) -> (r: Out)
    ensures
        all_work(r@) == all_work(out@).push(shown_work(a)),
{
    let mut r: Out = out;
    assert(all_work(r@.push(a)) =~= all_work(r@).push(shown_work(a)));
    r.push(a);
    r
}

fn cat(a: &str, b: &str) -> (r: String)
    ensures
        r@ == a@ + b@,
{
    let mut r: String = a.to_owned();
    r.append(b);
    r
}

impl Work {
    /// The work on a message whose session was just locked, and what is to be
    /// done first: the sender sees at once that something happens.
    pub fn new(text: String) -> (r: (Work, Vec<WorkAction<String>>))
        ensures
            r.0@ == (WorkModel { phase: WorkPhase::Opening, text: text@, tokens: None }),
            all_work(r.1@) == idle().push(WorkAction::StartTyping).push(WorkAction::CheckAgent),
    {
        (
            Work { phase: WorkPhase::Opening, text, tokens: None },
            with(with(nothing(), WorkAction::StartTyping), WorkAction::CheckAgent),
        )
    }

    /// The work on a queue that nobody drains any more, with its session just
    /// locked, and what is to be done first.
    pub fn adopt() -> (r: (Work, Vec<WorkAction<String>>))
        ensures
            r.0@ == (WorkModel { phase: WorkPhase::Adopting, text: Seq::empty(), tokens: None }),
            all_work(r.1@) == idle().push(WorkAction::CheckAgent),
    {
        proof {
            reveal_strlit("");
        }
        assert(""@ =~= Seq::<char>::empty());
        (
            Work { phase: WorkPhase::Adopting, text: "".to_owned(), tokens: None },
            with(nothing(), WorkAction::CheckAgent),
        )
    }

    fn to(self, phase: WorkPhase) -> (r: Work)
        ensures
            r@ == in_phase(self@, phase),
    {
        let mut t: Work = self;
        t.phase = phase;
        t
    }

    fn send(self, phase: WorkPhase) -> (r: (Work, Out))
        ensures
            r.0@ == in_phase(self@, phase),
            all_work(r.1@) == idle().push(WorkAction::Send(self@.text)),
    {
        let text: String = self.text.clone();
        (self.to(phase), with(nothing(), WorkAction::Send(text)))
    }

    fn settle(self, config: &ProjectConfig, acts: Out) -> (r: (Work, Out))
        ensures
            r.0@ == settled(self@, *config, all_work(acts@)).0,
            all_work(r.1@) == settled(self@, *config, all_work(acts@)).1,
    {
        let sync: bool = match config.sync_auto {
            Some(auto) => auto,
            None => false,
        };
        let due: bool = match self.tokens {
            Some(n) => config.auto_compress.enabled && n > config.auto_compress.max_tokens,
            None => false,
        };
        let mut out: Out = acts;
        if sync {
            out = with(out, WorkAction::SyncPush);
        }
        if due {
            out = with(out, WorkAction::Compact);
        }
        (self.to(WorkPhase::Draining), with(out, WorkAction::NextMessage))
    }

    fn abandon(self, reply: String) -> (r: (Work, Out))
        ensures
            r.0@ == abandoned(self@, reply@).0,
            all_work(r.1@) == abandoned(self@, reply@).1,
    {
        (
            self.to(WorkPhase::Done),
            with(
                with(with(nothing(), WorkAction::StopTyping), WorkAction::Reply(reply)),
                WorkAction::Unlock,
            ),
        )
    }

    fn opened(self, state: bool, alive: bool) -> (r: (Work, Out))
        ensures
            r.0@ == after_opening(self@, state, alive).0,
            all_work(r.1@) == after_opening(self@, state, alive).1,
    {
        if !state {
            (self.to(WorkPhase::Done), with(nothing(), WorkAction::Unlock))
        } else if !alive {
            (
                self.to(WorkPhase::Starting),
                with(nothing(), WorkAction::StartAgent { resume: true }),
            )
        } else {
            self.send(WorkPhase::Sending)
        }
    }

    fn sent(self, sent: Sent) -> (r: (Work, Out))
        ensures
            r.0@ == after_sending(self@, sent).0,
            all_work(r.1@) == after_sending(self@, sent).1,
    {
        match sent {
            Sent::Failed(e) => self.abandon(cat("💥 发送失败: ", e.as_str())),
            Sent::NoEvents => self.abandon("💥 Agent 会话异常，发 /new 重建".to_owned()),
            _ => (
                self.to(WorkPhase::Running),
                with(nothing(), WorkAction::RunTurn { stoppable: true }),
            ),
        }
    }

    fn ended(self, config: &ProjectConfig, result: Option<TurnEnd>, alive: bool) -> (r: (
        Work,
        Out,
    ))
        ensures
            r.0@ == after_turn(self@, *config, result, alive).0,
            all_work(r.1@) == after_turn(self@, *config, result, alive).1,
    {
        let mut t: Work = self;
        let empty: bool = match result {
            Some(r) => r.silent,
            None => true,
        };
        t.tokens = match result {
            Some(r) => Some(r.tokens),
            None => None,
        };
        if !alive && empty {
            (
                t.to(WorkPhase::Restarting),
                with(
                    with(nothing(), WorkAction::ForgetAgentSession),
                    WorkAction::StartAgent { resume: false },
                ),
            )
        } else {
            t.settle(
                config,
                with(with(nothing(), WorkAction::EndTurn), WorkAction::ReturnEvents),
            )
        }
    }

    fn restarted(self, config: &ProjectConfig, started: Option<Result<(), String>>) -> (r: (
        Work,
        Out,
    ))
        ensures
            r.0@ == after_restart(self@, *config, started).0,
            all_work(r.1@) == after_restart(self@, *config, started).1,
    {
        match started {
            Some(Ok(_)) => self.send(WorkPhase::Resending),
            Some(Err(e)) => {
                let reply: String = cat("💥 Agent 启动失败: ", e.as_str());
                self.settle(config, with(nothing(), WorkAction::Reply(reply)))
            },
            None => self.settle(config, nothing()),
        }
    }

    fn resent(self, config: &ProjectConfig, sent: Sent) -> (r: (Work, Out))
        ensures
            r.0@ == after_resending(self@, *config, sent).0,
            all_work(r.1@) == after_resending(self@, *config, sent).1,
    {
        match sent {
            Sent::Running => (
                self.to(WorkPhase::Rerunning),
                with(
                    with(nothing(), WorkAction::StartTyping),
                    WorkAction::RunTurn { stoppable: false },
                ),
            ),
            _ => self.settle(config, nothing()),
        }
    }

    fn drained(self, next: Option<String>) -> (r: (Work, Out))
        ensures
            (r.0@, all_work(r.1@)) == after_draining(
                self@,
                match next {
                    Some(t) => Some(t@),
                    None => None,
                },
            ),
    {
        match next {
            None => (self.to(WorkPhase::Done), nothing()),
            Some(text) => {
                let mut t: Work = self;
                t.text = text;
                (t.to(WorkPhase::CheckingAgent), with(nothing(), WorkAction::CheckAgent))
            },
        }
    }

    fn drain_sent(self, sent: Sent) -> (r: (Work, Out))
        ensures
            r.0@ == after_drain_send(self@, sent).0,
            all_work(r.1@) == after_drain_send(self@, sent).1,
    {
        match sent {
            Sent::Lost | Sent::NoEvents => (
                self.to(WorkPhase::Done),
                with(nothing(), WorkAction::Unlock),
            ),
            Sent::NoAgent => {
                let reply: String = "💥 没有活跃的 Agent 会话".to_owned();
                (
                    self.to(WorkPhase::Done),
                    with(with(nothing(), WorkAction::Reply(reply)), WorkAction::Unlock),
                )
            },
            Sent::Failed(e) => {
                let reply: String = cat("💥 发送排队消息失败: ", e.as_str());
                (
                    self.to(WorkPhase::Done),
                    with(with(nothing(), WorkAction::Reply(reply)), WorkAction::Unlock),
                )
            },
            Sent::Running => (
                self.to(WorkPhase::DrainRunning),
                with(
                    with(nothing(), WorkAction::StartTyping),
                    WorkAction::RunTurn { stoppable: true },
                ),
            ),
        }
    }

    fn drain_started(self, started: Result<(), String>) -> (r: (Work, Out))
        ensures
            r.0@ == after_drain_start(self@, started).0,
            all_work(r.1@) == after_drain_start(self@, started).1,
    {
        match started {
            Ok(_) => self.send(WorkPhase::DrainSending),
            Err(e) => {
                let reply: String = cat("💥 Agent 会话已断开: ", e.as_str());
                let notice: String = "💤 Agent 已断开，排队消息已丢弃".to_owned();
                (
                    self.to(WorkPhase::Done),
                    with(
                        with(
                            with(nothing(), WorkAction::Reply(reply)),
                            WorkAction::DropQueue(notice),
                        ),
                        WorkAction::Unlock,
                    ),
                )
            },
        }
    }

    /// Takes an input that the work waits for; gives the work afterwards and
    /// what is to be done.
    pub fn step(self, config: &ProjectConfig, input: WorkInput) -> (r: (
        Work,
        Vec<WorkAction<String>>,
    ))
        requires
            awaits(self@.phase, input),
        ensures
            r.0@ == next_work(self@, *config, input).0,
            all_work(r.1@) == next_work(self@, *config, input).1,
    {
        match (self.phase, input) {
            (WorkPhase::Opening, WorkInput::Found { state, alive }) => self.opened(state, alive),
            (WorkPhase::Starting, WorkInput::Started(Some(s))) => match s {
                Ok(_) => self.send(WorkPhase::Sending),
                Err(e) => self.abandon(cat("💥 Agent 启动失败: ", e.as_str())),
            },
            (WorkPhase::Sending, WorkInput::Sent(s)) => self.sent(s),
            (WorkPhase::Running, WorkInput::Ended { result, alive }) => self.ended(
                config,
                result,
                alive,
            ),
            (WorkPhase::Restarting, WorkInput::Started(s)) => self.restarted(config, s),
            (WorkPhase::Resending, WorkInput::Sent(s)) => self.resent(config, s),
            (WorkPhase::Rerunning, WorkInput::Ended { result: _, alive: _ }) => {
                let acts: Out = with(
                    with(nothing(), WorkAction::ReturnEvents),
                    WorkAction::EndTurn,
                );
                self.settle(config, acts)
            },
            (WorkPhase::Adopting, WorkInput::Found { state, alive }) => {
                if !state || !alive {
                    (self.to(WorkPhase::Done), with(nothing(), WorkAction::Unlock))
                } else {
                    (self.to(WorkPhase::Draining), with(nothing(), WorkAction::NextMessage))
                }
            },
            (WorkPhase::Draining, WorkInput::Next(next)) => self.drained(next),
            (WorkPhase::CheckingAgent, WorkInput::Agent(alive)) => {
                if alive {
                    self.send(WorkPhase::DrainSending)
                } else {
                    (
                        self.to(WorkPhase::DrainStarting),
                        with(nothing(), WorkAction::StartAgent { resume: true }),
                    )
                }
            },
            (WorkPhase::DrainStarting, WorkInput::Started(Some(s))) => self.drain_started(s),
            (WorkPhase::DrainSending, WorkInput::Sent(s)) => self.drain_sent(s),
            (WorkPhase::DrainRunning, WorkInput::Ended { result: _, alive: _ }) => (
                self.to(WorkPhase::Draining),
                with(
                    with(with(nothing(), WorkAction::EndTurn), WorkAction::ReturnEvents),
                    WorkAction::NextMessage,
                ),
            ),
            _ => (self, nothing()),
        }
    }
}

// ---------------------------------------------------------------------------
// Laws
// ---------------------------------------------------------------------------

/// The session is released exactly when the work is done: each step that ends
/// the work releases it, by its last action or, where the queue was empty, by
/// the look at the queue itself; and no other step does.
pub proof fn law_work_ends_with_release(m: WorkModel, config: ProjectConfig, input: WorkInput)
    requires
        awaits(m.phase, input),
    ensures
        ({
            let (after, acts) = next_work(m, config, input);
            &&& after.phase == WorkPhase::Done <==> (input == WorkInput::Next(None) || (acts.len()
                > 0 && acts.last() == WorkAction::<Seq<char>>::Unlock))
            &&& forall|i: int|
                0 <= i < acts.len() && #[trigger] acts[i] == WorkAction::<Seq<char>>::Unlock
                    ==> after.phase == WorkPhase::Done && i == acts.len() - 1
        }),
{
}

/// As long as the work goes on, its last action is the one whose outcome it
/// waits for: it never gets stuck.
pub proof fn law_work_goes_on(m: WorkModel, config: ProjectConfig, input: WorkInput)
    requires
        awaits(m.phase, input),
    ensures
        ({
            let (after, acts) = next_work(m, config, input);
            after.phase != WorkPhase::Done ==> acts.len() > 0 && match after.phase {
                WorkPhase::Starting | WorkPhase::DrainStarting => acts.last()
                    == (WorkAction::<Seq<char>>::StartAgent { resume: true }),
                WorkPhase::Restarting => acts.last()
                    == (WorkAction::<Seq<char>>::StartAgent { resume: false }),
                WorkPhase::Sending | WorkPhase::Resending | WorkPhase::DrainSending => acts.last()
                    == WorkAction::Send(after.text),
                WorkPhase::Running | WorkPhase::DrainRunning => acts.last()
                    == (WorkAction::<Seq<char>>::RunTurn { stoppable: true }),
                WorkPhase::Rerunning => acts.last()
                    == (WorkAction::<Seq<char>>::RunTurn { stoppable: false }),
                WorkPhase::Draining => acts.last() == WorkAction::<Seq<char>>::NextMessage,
                WorkPhase::CheckingAgent => acts.last() == WorkAction::<Seq<char>>::CheckAgent,
                _ => false,
            }
        }),
{
}

/// A message is not lost to a resume that failed: where the agent died without
/// a word, a fresh one is started, and it gets the same text.
pub proof fn law_failed_resume_is_retried(
    m: WorkModel,
    config: ProjectConfig,
    result: Option<TurnEnd>,
)
    requires
        m.phase == WorkPhase::Running,
        result is None || result->0.silent,
    ensures
        ({
            let died = WorkInput::Ended { result, alive: false };
            let (restarting, first) = next_work(m, config, died);
            let (resending, second) = next_work(
                restarting,
                config,
                WorkInput::Started(Some(Ok(()))),
            );
            &&& first.contains(WorkAction::ForgetAgentSession)
            &&& first.contains(WorkAction::StartAgent { resume: false })
            &&& second == idle().push(WorkAction::Send(m.text))
            &&& resending.phase == WorkPhase::Resending
        }),
{
    let died = WorkInput::Ended { result, alive: false };
    let first = next_work(m, config, died).1;
    assert(first[0] == WorkAction::<Seq<char>>::ForgetAgentSession);
    assert(first[1] == (WorkAction::<Seq<char>>::StartAgent { resume: false }));
}

/// The second try is the last one: the work never starts a third agent for one
/// message.
pub proof fn law_one_retry(m: WorkModel, config: ProjectConfig, input: WorkInput)
    requires
        awaits(m.phase, input),
    ensures
        next_work(m, config, input).0.phase == WorkPhase::Restarting ==> m.phase
            == WorkPhase::Running,
        next_work(m, config, input).0.phase == WorkPhase::Running ==> m.phase
            == WorkPhase::Sending,
        next_work(m, config, input).0.phase == WorkPhase::Sending ==> m.phase == WorkPhase::Opening
            || m.phase == WorkPhase::Starting,
        next_work(m, config, input).0.phase == WorkPhase::Starting ==> m.phase
            == WorkPhase::Opening,
        next_work(m, config, input).0.phase != WorkPhase::Opening,
{
}

/// The text of a message is what is sent: no step changes it, but for the next
/// message of the queue, which brings its own.
pub proof fn law_text_is_sent_as_it_is(m: WorkModel, config: ProjectConfig, input: WorkInput, i: int)
    requires
        awaits(m.phase, input),
        0 <= i < next_work(m, config, input).1.len(),
    ensures
        ({
            let (after, acts) = next_work(m, config, input);
            &&& acts[i] is Send ==> acts[i] == WorkAction::Send(m.text) && after.text == m.text
            &&& match input {
                WorkInput::Next(Some(t)) => after.text == t@,
                _ => after.text == m.text,
            }
        }),
{
}

/// Where the agent cannot be started or reached, the sender is told why, no turn
/// runs, and the work is over.
pub proof fn law_failure_is_told(m: WorkModel, config: ProjectConfig, e: String)
    requires
        m.phase == WorkPhase::Starting || m.phase == WorkPhase::DrainStarting || m.phase
            == WorkPhase::Sending || m.phase == WorkPhase::DrainSending,
    ensures
        next_work(m, config, failing(m.phase, e)).0.phase == WorkPhase::Done,
        exists|i: int|
            0 <= i < next_work(m, config, failing(m.phase, e)).1.len() && tells(
                #[trigger] next_work(m, config, failing(m.phase, e)).1[i],
                e@,
            ),
        forall|i: int|
            0 <= i < next_work(m, config, failing(m.phase, e)).1.len() ==> !((
            #[trigger] next_work(m, config, failing(m.phase, e)).1[i]) is RunTurn),
{
    let acts = next_work(m, config, failing(m.phase, e)).1;
    let k: int = if m.phase == WorkPhase::Starting || m.phase == WorkPhase::Sending {
        1
    } else {
        0
    };
    let head = if m.phase == WorkPhase::Starting {
        "💥 Agent 启动失败: "@
    } else if m.phase == WorkPhase::Sending {
        "💥 发送失败: "@
    } else if m.phase == WorkPhase::DrainStarting {
        "💥 Agent 会话已断开: "@
    } else {
        "💥 发送排队消息失败: "@
    };
    lemma_occurs_in(head, e@, Seq::empty());
    assert(head + e@ + Seq::<char>::empty() =~= head + e@);
    assert(acts[k] == WorkAction::Reply(head + e@));
    assert(tells(acts[k], e@));
    assert(acts.len() == 2 || acts.len() == 3);
}

/// The input that says that the agent could not be started, or not be reached.
pub open spec fn failing(phase: WorkPhase, e: String) -> WorkInput {
    if phase == WorkPhase::Starting || phase == WorkPhase::DrainStarting {
        WorkInput::Started(Some(Err(e)))
    } else {
        WorkInput::Sent(Sent::Failed(e))
    }
}

/// Whether an action tells the sender a text.
pub open spec fn tells(a: WorkAction<Seq<char>>, text: Seq<char>) -> bool {
    a is Reply && occurs(a->Reply_0, text)
}

/// Where no agent can be had for the queue, the messages in it are given up.
pub proof fn law_queue_is_dropped_without_an_agent(m: WorkModel, config: ProjectConfig, e: String)
    requires
        m.phase == WorkPhase::DrainStarting,
    ensures
        ({
            let acts = next_work(m, config, WorkInput::Started(Some(Err(e)))).1;
            exists|i: int| 0 <= i < acts.len() && (#[trigger] acts[i]) is DropQueue
        }),
{
    let acts = next_work(m, config, WorkInput::Started(Some(Err(e)))).1;
    assert(acts[1] is DropQueue);
}

/// A restart that fails is told too, and the queue still gets its turn.
pub proof fn law_failed_restart_is_told(m: WorkModel, config: ProjectConfig, e: String)
    requires
        m.phase == WorkPhase::Restarting,
    ensures
        ({
            let (after, acts) = next_work(m, config, WorkInput::Started(Some(Err(e))));
            &&& acts[0] is Reply && occurs(acts[0]->Reply_0, e@)
            &&& after.phase == WorkPhase::Draining
        }),
{
    let head = "💥 Agent 启动失败: "@;
    lemma_occurs_in(head, e@, Seq::empty());
    assert(head + e@ + Seq::<char>::empty() =~= head + e@);
}

/// After a turn the context is compressed where that is switched on and the turn
/// took more tokens than the limit, and the sessions are pushed where that is
/// switched on; neither happens otherwise. The turn is ended and its events are
/// given back.
pub proof fn law_turn_is_settled(m: WorkModel, config: ProjectConfig, end: TurnEnd, alive: bool)
    requires
        m.phase == WorkPhase::Running,
        alive || !end.silent,
    ensures
        ({
            let (after, acts) = next_work(m, config, WorkInput::Ended { result: Some(end), alive });
            &&& after.phase == WorkPhase::Draining
            &&& acts.contains(WorkAction::Compact) <==> config.auto_compress.enabled && end.tokens
                > config.auto_compress.max_tokens
            &&& acts.contains(WorkAction::SyncPush) <==> config.sync_auto == Some(true)
            &&& acts.contains(WorkAction::EndTurn)
            &&& acts.contains(WorkAction::ReturnEvents)
        }),
{
    let acts = next_work(m, config, WorkInput::Ended { result: Some(end), alive }).1;
    assert(acts[0] == WorkAction::<Seq<char>>::EndTurn);
    assert(acts[1] == WorkAction::<Seq<char>>::ReturnEvents);
    let n = acts.len() as int;
    assert(n >= 3);
    if config.sync_auto == Some(true) {
        assert(acts[2] == WorkAction::<Seq<char>>::SyncPush);
    }
    if compresses(config, Some(end.tokens)) {
        assert(acts[n - 2] == WorkAction::<Seq<char>>::Compact);
    }
}

/// A message goes to the agent that lives; where none does, one is started that
/// goes on where the last one was. A message from the queue is treated alike.
pub proof fn law_living_agent_is_used(m: WorkModel, config: ProjectConfig, alive: bool)
    requires
        m.phase == WorkPhase::Opening || m.phase == WorkPhase::CheckingAgent,
    ensures
        ({
            let input = if m.phase == WorkPhase::Opening {
                WorkInput::Found { state: true, alive }
            } else {
                WorkInput::Agent(alive)
            };
            let acts = next_work(m, config, input).1;
            &&& acts.len() == 1
            &&& alive ==> acts[0] == WorkAction::Send(m.text)
            &&& !alive ==> acts[0] == (WorkAction::<Seq<char>>::StartAgent { resume: true })
        }),
{
}

/// Every turn of the queue is ended, its events are given back, and the next
/// message is looked for.
pub proof fn law_queue_goes_on_after_a_turn(
    m: WorkModel,
    config: ProjectConfig,
    result: Option<TurnEnd>,
    alive: bool,
)
    requires
        m.phase == WorkPhase::DrainRunning || m.phase == WorkPhase::Rerunning,
    ensures
        ({
            let (after, acts) = next_work(m, config, WorkInput::Ended { result, alive });
            &&& after.phase == WorkPhase::Draining
            &&& acts.contains(WorkAction::EndTurn)
            &&& acts.contains(WorkAction::ReturnEvents)
            &&& acts.last() == WorkAction::<Seq<char>>::NextMessage
        }),
{
    let acts = next_work(m, config, WorkInput::Ended { result, alive }).1;
    if m.phase == WorkPhase::DrainRunning {
        assert(acts[0] == WorkAction::<Seq<char>>::EndTurn);
        assert(acts[1] == WorkAction::<Seq<char>>::ReturnEvents);
    } else {
        assert(acts[1] == WorkAction::<Seq<char>>::EndTurn);
        assert(acts[0] == WorkAction::<Seq<char>>::ReturnEvents);
    }
}

} // verus!
