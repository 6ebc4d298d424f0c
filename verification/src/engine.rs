//! The engine's state and the decisions on it.
//!
//! The engine keeps, for each session key, the conversation that is running:
//! its session, its queue and its switches. Agents themselves live outside;
//! where a decision depends on one, it is told whether that agent is alive.

use crate::config::{AgentEntry, DisplayConfig, ProjectConfig};
use crate::session::{
    active_session, busy, ensured, has_lock, holds_key, is_active_listing, pairs, renamed,
    valid_times, with_lock, work_dir_of, ManagerModel, QueuedMessage, Session, SessionManager,
    SessionModel, MAX_QUEUED_MESSAGES,
};
use crate::table::{PairTable, Table};
use crate::text::{clone_opt, holds_text, lemma_texts_push, same, text_opt, texts, trim, trimmed};
use std::collections::VecDeque;
use vstd::prelude::*;
use vstd::string::*;

verus! {

// ---------------------------------------------------------------------------
// A running conversation
// ---------------------------------------------------------------------------

/// The conversation of a session key.
pub struct EngineInteractiveState {
    pub session: Session,
    pub pending_messages: VecDeque<QueuedMessage>,
    /// Whether a turn runs that takes the user's decisions.
    pub can_decide: bool,
    /// Whether a permission request waits for the user.
    pub has_pending_permission: bool,
    /// Set to end the running turn at once.
    pub stopped: bool,
    /// Whether permission requests are granted without asking.
    pub approve_all: bool,
    /// The user's choice for the verbose switch.
    pub verbose_override: Option<bool>,
}

/// What a conversation holds.
pub struct StateModel {
    pub session: SessionModel,
    pub pending: Seq<QueuedMessage>,
    pub can_decide: bool,
    pub has_pending_permission: bool,
    pub stopped: bool,
    pub approve_all: bool,
    pub verbose_override: Option<bool>,
}

impl View for EngineInteractiveState {
    type V = StateModel;

    open spec fn view(&self) -> StateModel {
        StateModel {
            session: self.session@,
            pending: self.pending_messages@,
            can_decide: self.can_decide,
            has_pending_permission: self.has_pending_permission,
            stopped: self.stopped,
            approve_all: self.approve_all,
            verbose_override: self.verbose_override,
        }
    }
}

/// A conversation before its first turn.
pub open spec fn fresh_state(session: SessionModel) -> StateModel {
    StateModel {
        session,
        pending: Seq::empty(),
        can_decide: false,
        has_pending_permission: false,
        stopped: false,
        approve_all: false,
        verbose_override: None,
    }
}

impl EngineInteractiveState {
    pub fn new(session: Session) -> (r: Self)
        ensures
            r@ == fresh_state(session@),
    {
        EngineInteractiveState {
            session,
            pending_messages: VecDeque::new(),
            can_decide: false,
            has_pending_permission: false,
            stopped: false,
            approve_all: false,
            verbose_override: None,
        }
    }

    /// Queues a message; gives `false` where the queue is full.
    pub fn queue_message(&mut self, msg: QueuedMessage) -> (r: bool)
        ensures
            r == (old(self)@.pending.len() < MAX_QUEUED_MESSAGES),
            final(self)@ == (StateModel {
                pending: if r {
                    old(self)@.pending.push(msg)
                } else {
                    old(self)@.pending
                },
                ..old(self)@
            }),
    {
        if self.pending_messages.len() >= MAX_QUEUED_MESSAGES {
            return false;
        }
        self.pending_messages.push_back(msg);
        true
    }

    pub fn queue_len(&self) -> (r: usize)
        ensures
            r == self@.pending.len(),
    {
        self.pending_messages.len()
    }

    /// Takes the message that has waited longest.
    pub fn drain_next(&mut self) -> (r: Option<QueuedMessage>)
        ensures
            r is Some <==> old(self)@.pending.len() > 0,
            r is Some ==> r->0 == old(self)@.pending[0],
            final(self)@ == (StateModel {
                pending: if r is Some {
                    old(self)@.pending.skip(1)
                } else {
                    old(self)@.pending
                },
                ..old(self)@
            }),
    {
        self.pending_messages.pop_front()
    }
}

// ---------------------------------------------------------------------------
// Agents
// ---------------------------------------------------------------------------

/// The first agent of a name.
pub open spec fn agent_named(agents: Seq<AgentEntry>, name: Seq<char>) -> Option<AgentEntry>
    decreases agents.len(),
{
    if agents.len() == 0 {
        None
    } else if agents[0].name@ == name {
        Some(agents[0])
    } else {
        agent_named(agents.skip(1), name)
    }
}

/// The names of the agents.
pub open spec fn agent_names(agents: Seq<AgentEntry>) -> Seq<Seq<char>> {
    agents.map_values(|a: AgentEntry| a.name@)
}

/// The agent of a name, where there is one.
pub fn find_agent<'a>(config: &'a ProjectConfig, name: &str) -> (r: Option<&'a AgentEntry>)
    ensures
        match r {
            Some(e) => agent_named(config.agents@, name@) == Some(*e),
            None => agent_named(config.agents@, name@) is None,
        },
{
    let mut i: usize = 0;
    assert(config.agents@.skip(0) =~= config.agents@);
    while i < config.agents.len()
        invariant
            i <= config.agents.len(),
            agent_named(config.agents@, name@) == agent_named(
                config.agents@.skip(i as int),
                name@,
            ),
        decreases config.agents.len() - i,
    {
        let ghost rest = config.agents@.skip(i as int);
        assert(rest[0] == config.agents[i as int]);
        if same(config.agents[i].name.as_str(), name) {
            return Some(&config.agents[i]);
        }
        assert(rest.skip(1) =~= config.agents@.skip(i + 1));
        i += 1;
    }
    None
}

pub(crate) fn names_of(agents: &Vec<AgentEntry>) -> (r: Vec<String>)
    ensures
        texts(r@) == agent_names(agents@),
{
    let ghost want = agent_names(agents@);
    let mut r: Vec<String> = Vec::new();
    let mut i: usize = 0;
    while i < agents.len()
        invariant
            i <= agents.len(),
            want == agent_names(agents@),
            texts(r@) == want.take(i as int),
        decreases agents.len() - i,
    {
        let name: String = agents[i].name.clone();
        proof {
            lemma_texts_push(r@, name);
            assert(want.take(i as int).push(name@) =~= want.take(i + 1));
        }
        r.push(name);
        i += 1;
    }
    assert(want.take(agents.len() as int) =~= want);
    r
}

// ---------------------------------------------------------------------------
// The engine
// ---------------------------------------------------------------------------

/// The engine's state for one project.
pub struct Engine {
    pub config: ProjectConfig,
    pub sessions: SessionManager,
    pub interactive_states: Table<EngineInteractiveState>,
    /// The agent that each key has chosen.
    pub active_agents: Table<String>,
    /// The model that was chosen for a key and an agent.
    pub model_override: PairTable,
    /// The permission mode that was chosen for a key and an agent.
    pub mode_override: PairTable,
}

/// What the engine holds.
pub struct EngineModel {
    pub sessions: ManagerModel,
    pub states: Map<Seq<char>, StateModel>,
    pub active: Map<Seq<char>, Seq<char>>,
    pub models: Map<(Seq<char>, Seq<char>), Seq<char>>,
    pub modes: Map<(Seq<char>, Seq<char>), Seq<char>>,
}

impl View for Engine {
    type V = EngineModel;

    open spec fn view(&self) -> EngineModel {
        EngineModel {
            sessions: self.sessions@,
            states: self.interactive_states@,
            active: self.active_agents@,
            models: self.model_override@,
            modes: self.mode_override@,
        }
    }
}

/// Every conversation keeps its queue bounded, and its session has a lock and
/// times of the calendar.
pub open spec fn states_sound(m: EngineModel) -> bool {
    forall|k: Seq<char>| #[trigger]
        m.states.contains_key(k) ==> m.states[k].pending.len() <= MAX_QUEUED_MESSAGES && has_lock(
            m.states[k].session,
            m.sessions.locks,
        ) && valid_times(m.states[k].session)
}

/// The agent that a key works with.
pub open spec fn active_agent(m: EngineModel, config: ProjectConfig, key: Seq<char>) -> Seq<char> {
    if m.active.contains_key(key) {
        m.active[key]
    } else {
        config.default_agent@
    }
}

/// The agent of a saved session, as far as it can be restored: it is recorded
/// and still configured.
pub open spec fn restorable(agent_type: Seq<char>, known: Seq<Seq<char>>) -> bool {
    trimmed(agent_type).len() > 0 && (known.len() == 0 || known.contains(trimmed(agent_type)))
}

/// The chosen agent of each key, restored from its active session.
pub open spec fn restored(m: ManagerModel, known: Seq<Seq<char>>) -> Map<Seq<char>, Seq<char>> {
    Map::new(
        |k: Seq<char>|
            active_session(m, k) is Some && restorable(active_session(m, k)->0.agent_type, known),
        |k: Seq<char>| trimmed(active_session(m, k)->0.agent_type),
    )
}

/// The model for a key and an agent: the chosen one, else the agent's.
pub open spec fn model_for(
    m: EngineModel,
    config: ProjectConfig,
    key: Seq<char>,
    agent: Seq<char>,
) -> Option<Seq<char>> {
    if m.models.contains_key((key, agent)) {
        Some(m.models[(key, agent)])
    } else {
        match agent_named(config.agents@, agent) {
            Some(e) => text_opt(e.model),
            None => None,
        }
    }
}

/// The permission mode for a key and an agent: the chosen one, else the
/// agent's, else the project's.
pub open spec fn mode_for(
    m: EngineModel,
    config: ProjectConfig,
    key: Seq<char>,
    agent: Seq<char>,
) -> Seq<char> {
    if m.modes.contains_key((key, agent)) {
        m.modes[(key, agent)]
    } else {
        match agent_named(config.agents@, agent) {
            Some(e) => e.mode@,
            None => config.agent.mode@,
        }
    }
}

/// The display settings of a key: the project's, with the user's choice for
/// the verbose switch.
pub open spec fn display_for(m: EngineModel, config: ProjectConfig, key: Seq<char>) ->
    DisplayConfig {
    if m.states.contains_key(key) && m.states[key].verbose_override is Some {
        DisplayConfig { verbose: m.states[key].verbose_override->0, ..config.display }
    } else {
        config.display
    }
}

/// Whether a key's agent shows its tools in one progress message: the tmux
/// backend does, where hooks report them.
pub open spec fn inplace_progress(m: EngineModel, config: ProjectConfig, key: Seq<char>) -> bool {
    match agent_named(config.agents@, active_agent(m, config, key)) {
        Some(e) => e.backend@ == "tmux"@ && e.tmux is Some && e.tmux->0.hook_relay,
        None => false,
    }
}

impl Engine {
    pub open spec fn well_formed(&self) -> bool {
        &&& self.sessions.well_formed()
        &&& self.interactive_states.well_formed()
        &&& self.active_agents.well_formed()
        &&& states_sound(self@)
    }

    /// An engine over loaded sessions. The agent that each key had chosen is
    /// restored from its active session, so that a restart does not send
    /// everyone back to the default.
    pub fn new(config: ProjectConfig, sessions: SessionManager) -> (r: Engine)
        requires
            sessions.well_formed(),
        ensures
            r.well_formed(),
            r.config == config,
            r@ == (EngineModel {
                sessions: sessions@,
                states: Map::empty(),
                active: restored(sessions@, agent_names(config.agents@)),
                models: Map::empty(),
                modes: Map::empty(),
            }),
    {
        let known: Vec<String> = names_of(&config.agents);
        let list: Vec<(String, Session)> = sessions.active_sessions();
        let ghost all = pairs(list@);
        let ghost names = agent_names(config.agents@);
        let mut hydrated: Table<String> = Table::new();
        let mut i: usize = 0;
        while i < list.len()
            invariant
                i <= list.len(),
                all == pairs(list@),
                names == agent_names(config.agents@),
                texts(known@) == names,
                is_active_listing(sessions@, all),
                hydrated.well_formed(),
                forall|k: Seq<char>| #[trigger]
                    hydrated@.contains_key(k) <==> exists|j: int|
                        0 <= j < i && (#[trigger] all[j]).0 == k && restorable(
                            all[j].1.agent_type,
                            names,
                        ),
                forall|j: int|
                    0 <= j < i && restorable((#[trigger] all[j]).1.agent_type, names)
                        ==> hydrated@.contains_key(all[j].0) && hydrated@[all[j].0] == trimmed(
                        all[j].1.agent_type,
                    ),
            decreases list.len() - i,
        {
            let agent_type: &str = trim(list[i].1.agent_type.as_str());
            assert(all[i as int] == (list@[i as int].0@, list@[i as int].1@));
            let ghost before = hydrated@;
            if !agent_type.is_empty() && (known.len() == 0 || holds_text(&known, agent_type)) {
                hydrated.insert(list[i].0.clone(), agent_type.to_owned());
            }
            proof {
                let k = all[i as int].0;
                assert forall|j: int|
                    0 <= j < i + 1 && restorable(
                        (#[trigger] all[j]).1.agent_type,
                        names,
                    ) implies hydrated@.contains_key(all[j].0) && hydrated@[all[j].0] == trimmed(
                    all[j].1.agent_type,
                ) by {
                    if j < i {
                        assert(all[j].0 != all[i as int].0);
                    }
                }
                assert forall|x: Seq<char>| #[trigger]
                    hydrated@.contains_key(x) <==> exists|j: int|
                        0 <= j < i + 1 && (#[trigger] all[j]).0 == x && restorable(
                            all[j].1.agent_type,
                            names,
                        ) by {
                    if before.contains_key(x) {
                        let j = choose|j: int|
                            0 <= j < i && (#[trigger] all[j]).0 == x && restorable(
                                all[j].1.agent_type,
                                names,
                            );
                        assert(all[j].0 == x);
                    }
                    if restorable(all[i as int].1.agent_type, names) && x == k {
                        assert(all[i as int].0 == x);
                    }
                }
            }
            i += 1;
        }
        proof {
            let want = restored(sessions@, names);
            assert forall|k: Seq<char>|
                #![trigger want.contains_key(k)]
                #![trigger hydrated@.contains_key(k)]
                hydrated@.contains_key(k) <==> want.contains_key(k) by {
                if want.contains_key(k) {
                    assert(holds_key(all, k));
                    let j = choose|j: int| 0 <= j < all.len() && #[trigger] all[j].0 == k;
                    assert(active_session(sessions@, all[j].0) == Some(all[j].1));
                }
                if hydrated@.contains_key(k) {
                    let j = choose|j: int|
                        0 <= j < all.len() && (#[trigger] all[j]).0 == k && restorable(
                            all[j].1.agent_type,
                            names,
                        );
                    assert(active_session(sessions@, all[j].0) == Some(all[j].1));
                }
            }
            assert forall|k: Seq<char>| #[trigger] hydrated@.contains_key(k) implies hydrated@[k]
                == want[k] by {
                let j = choose|j: int|
                    0 <= j < all.len() && (#[trigger] all[j]).0 == k && restorable(
                        all[j].1.agent_type,
                        names,
                    );
                assert(active_session(sessions@, all[j].0) == Some(all[j].1));
            }
            assert(hydrated@ =~= want);
        }
        Engine {
            config,
            sessions,
            interactive_states: Table::new(),
            active_agents: hydrated,
            model_override: PairTable::new(),
            mode_override: PairTable::new(),
        }
    }

    /// The agent that a key works with; the project's default where none was
    /// chosen.
    pub fn resolve_active_agent(&self, key: &str) -> (r: String)
        requires
            self.well_formed(),
        ensures
            r@ == active_agent(self@, self.config, key@),
    {
        match self.active_agents.get(key) {
            Some(name) => name.clone(),
            None => self.config.default_agent.clone(),
        }
    }

    /// The model for a key and an agent.
    pub fn effective_model(&self, key: &str, agent: &str) -> (r: Option<String>)
        ensures
            text_opt(r) == model_for(self@, self.config, key@, agent@),
    {
        match self.model_override.get(key, agent) {
            Some(m) => Some(m.to_owned()),
            None => match find_agent(&self.config, agent) {
                Some(e) => clone_opt(&e.model),
                None => None,
            },
        }
    }

    /// The permission mode for a key and an agent.
    pub fn effective_mode(&self, key: &str, agent: &str) -> (r: String)
        ensures
            r@ == mode_for(self@, self.config, key@, agent@),
    {
        match self.mode_override.get(key, agent) {
            Some(m) => m.to_owned(),
            None => match find_agent(&self.config, agent) {
                Some(e) => e.mode.clone(),
                None => self.config.agent.mode.clone(),
            },
        }
    }

    /// The display settings for a turn of a key.
    pub fn effective_display(&self, key: &str) -> (r: DisplayConfig)
        requires
            self.well_formed(),
        ensures
            r == display_for(self@, self.config, key@),
    {
        let mut display: DisplayConfig = self.config.display;
        if let Some(state) = self.interactive_states.get(key) {
            if let Some(v) = state.verbose_override {
                display.verbose = v;
            }
        }
        display
    }

    /// Whether a key's agent shows its tools in one progress message.
    pub fn uses_inplace_tool_progress(&self, key: &str) -> (r: bool)
        requires
            self.well_formed(),
        ensures
            r == inplace_progress(self@, self.config, key@),
    {
        let agent: String = self.resolve_active_agent(key);
        match find_agent(&self.config, agent.as_str()) {
            Some(e) => same(e.backend.as_str(), "tmux") && match &e.tmux {
                Some(t) => t.hook_relay,
                None => false,
            },
            None => false,
        }
    }

    // -----------------------------------------------------------------------
    // Conversations
    // -----------------------------------------------------------------------

    /// Puts a changed conversation in the place of a key's.
    pub(crate) fn put_state(&mut self, key: &str, state: EngineInteractiveState)
        requires
            old(self).well_formed(),
            state@.pending.len() <= MAX_QUEUED_MESSAGES,
            has_lock(state@.session, old(self)@.sessions.locks),
            valid_times(state@.session),
        ensures
            final(self).well_formed(),
            final(self).config == old(self).config,
            final(self)@ == with_state(old(self)@, key@, state@),
    {
        self.interactive_states.insert(key.to_owned(), state);
    }

    /// Takes a key's conversation out.
    pub(crate) fn take_state(&mut self, key: &str) -> (r: Option<EngineInteractiveState>)
        requires
            old(self).well_formed(),
        ensures
            final(self).well_formed(),
            final(self).config == old(self).config,
            final(self)@ == without_state(old(self)@, key@),
            match r {
                Some(s) => old(self)@.states.contains_key(key@) && old(self)@.states[key@] == s@,
                None => !old(self)@.states.contains_key(key@),
            },
    {
        self.interactive_states.remove(key)
    }

    /// Makes sure that a key has a conversation; gives its session.
    pub fn ensure_state(&mut self, key: &str) -> (r: Session)
        requires
            old(self).well_formed(),
        ensures
            final(self).well_formed(),
            final(self).config == old(self).config,
            opened(old(self)@, key@, final(self)@),
            r@ == final(self)@.states[key@].session,
    {
        match self.interactive_states.get(key) {
            Some(state) => state.session.share(),
            None => {
                let s: Session = self.sessions.get_or_create(key);
                let r: Session = s.share();
                let ghost sm = self.sessions@;
                proof {
                    lemma_ensured_keeps_locks(old(self)@.sessions, key@, sm);
                    lemma_active_has_lock(self.sessions, key@);
                }
                self.put_state(key, EngineInteractiveState::new(s));
                r
            },
        }
    }

    /// Takes a message in: its key has a conversation afterwards, an unnamed
    /// session takes over the name of the channel, and the session is locked
    /// for a turn unless it is busy. Gives the session and whether the lock was
    /// taken.
    pub fn take_in(&mut self, key: &str, channel_name: &Option<String>) -> (r: (Session, bool))
        requires
            old(self).well_formed(),
        ensures
            final(self).well_formed(),
            final(self).config == old(self).config,
            exists|m: EngineModel| #[trigger]
                opened(old(self)@, key@, m) && r.0@ == m.states[key@].session && r.1 == !busy(
                    r.0@,
                    m.sessions.locks,
                ) && final(self)@ == locked(
                    channel_named(m, key@, text_opt(*channel_name)),
                    r.0@.lock,
                    true,
                ),
    {
        let session: Session = self.ensure_state(key);
        let ghost m = self@;
        if session.name.is_none() {
            if let Some(name) = channel_name {
                let _: bool = self.sessions.rename_session(key, name.as_str());
            }
        }
        let ghost m1 = self@;
        assert(m1 == channel_named(m, key@, text_opt(*channel_name)));
        let taken: bool = self.sessions.try_lock_session(&session);
        (session, taken)
    }

    /// Queues a message for the running turn of its key; gives `false` where
    /// the queue is full or there is no conversation.
    pub fn enqueue(&mut self, key: &str, msg: QueuedMessage) -> (r: bool)
        requires
            old(self).well_formed(),
        ensures
            final(self).well_formed(),
            final(self).config == old(self).config,
            r == (old(self)@.states.contains_key(key@) && old(self)@.states[key@].pending.len()
                < MAX_QUEUED_MESSAGES),
            final(self)@ == if r {
                queued(old(self)@, key@, msg)
            } else {
                old(self)@
            },
    {
        let ghost m = self@;
        match self.take_state(key) {
            Some(state) => {
                let mut state: EngineInteractiveState = state;
                let r: bool = state.queue_message(msg);
                self.put_state(key, state);
                proof {
                    lemma_put_back(m, key@, state@);
                    if !r {
                        lemma_state_unchanged(m, key@);
                    }
                }
                r
            },
            None => {
                proof {
                    lemma_nothing_to_remove(m, key@);
                }
                false
            },
        }
    }

    /// Locks a session whose queue nobody drains any more.
    pub fn relock(&mut self, session: &Session) -> (r: bool)
        requires
            old(self).well_formed(),
            has_lock(session@, old(self)@.sessions.locks),
        ensures
            final(self).well_formed(),
            final(self).config == old(self).config,
            r == !busy(session@, old(self)@.sessions.locks),
            final(self)@ == locked(old(self)@, session@.lock, true),
    {
        self.sessions.try_lock_session(session)
    }

    /// Releases a session.
    pub fn unlock(&mut self, session: &Session)
        requires
            old(self).well_formed(),
            has_lock(session@, old(self)@.sessions.locks),
        ensures
            final(self).well_formed(),
            final(self).config == old(self).config,
            final(self)@ == locked(old(self)@, session@.lock, false),
    {
        self.sessions.unlock_session(session);
    }

    /// Takes the next queued message of a key. Where there is none, the session
    /// is released in the same step, so that no message can be queued between
    /// the look at the queue and the release.
    pub fn next_message(&mut self, key: &str, session: &Session) -> (r: Option<QueuedMessage>)
        requires
            old(self).well_formed(),
            has_lock(session@, old(self)@.sessions.locks),
        ensures
            final(self).well_formed(),
            final(self).config == old(self).config,
            r is Some <==> has_pending(old(self)@, key@),
            r is Some ==> r->0 == old(self)@.states[key@].pending[0],
            final(self)@ == if r is Some {
                drained(old(self)@, key@)
            } else {
                locked(old(self)@, session@.lock, false)
            },
    {
        let ghost m = self@;
        match self.take_state(key) {
            Some(state) => {
                let mut state: EngineInteractiveState = state;
                let r: Option<QueuedMessage> = state.drain_next();
                self.put_state(key, state);
                proof {
                    lemma_put_back(m, key@, state@);
                }
                if r.is_none() {
                    proof {
                        lemma_state_unchanged(m, key@);
                    }
                    self.unlock(session);
                }
                r
            },
            None => {
                proof {
                    lemma_nothing_to_remove(m, key@);
                }
                self.unlock(session);
                None
            },
        }
    }

    /// Empties the queue of a key; gives what was in it, in order.
    pub fn drop_queue(&mut self, key: &str) -> (r: VecDeque<QueuedMessage>)
        requires
            old(self).well_formed(),
        ensures
            final(self).well_formed(),
            final(self).config == old(self).config,
            r@ == waiting(old(self)@, key@),
            final(self)@ == unqueued(old(self)@, key@),
    {
        let ghost m = self@;
        let mut r: VecDeque<QueuedMessage> = VecDeque::new();
        match self.take_state(key) {
            Some(state) => {
                let mut state: EngineInteractiveState = state;
                std::mem::swap(&mut r, &mut state.pending_messages);
                self.put_state(key, state);
                proof {
                    lemma_put_back(m, key@, state@);
                }
            },
            None => {
                proof {
                    lemma_nothing_to_remove(m, key@);
                }
            },
        }
        r
    }

    /// A turn begins: decisions are taken, nothing is pending and nothing
    /// stopped. Gives whether everything is approved.
    pub fn begin_turn(&mut self, key: &str) -> (r: Option<bool>)
        requires
            old(self).well_formed(),
        ensures
            final(self).well_formed(),
            final(self).config == old(self).config,
            r == if old(self)@.states.contains_key(key@) {
                Some(old(self)@.states[key@].approve_all)
            } else {
                None
            },
            final(self)@ == begun(old(self)@, key@),
    {
        let ghost m = self@;
        match self.take_state(key) {
            Some(state) => {
                let mut state: EngineInteractiveState = state;
                state.can_decide = true;
                state.has_pending_permission = false;
                state.stopped = false;
                let all: bool = state.approve_all;
                self.put_state(key, state);
                proof {
                    lemma_put_back(m, key@, state@);
                }
                Some(all)
            },
            None => {
                proof {
                    lemma_nothing_to_remove(m, key@);
                }
                None
            },
        }
    }

    /// A turn is over: what it allowed lasts, and no decision is waited for.
    pub fn end_turn(&mut self, key: &str, approve_all: bool)
        requires
            old(self).well_formed(),
        ensures
            final(self).well_formed(),
            final(self).config == old(self).config,
            final(self)@ == ended(old(self)@, key@, approve_all),
    {
        let ghost m = self@;
        match self.take_state(key) {
            Some(state) => {
                let mut state: EngineInteractiveState = state;
                state.approve_all = approve_all;
                state.can_decide = false;
                state.has_pending_permission = false;
                self.put_state(key, state);
                proof {
                    lemma_put_back(m, key@, state@);
                }
            },
            None => {
                proof {
                    lemma_nothing_to_remove(m, key@);
                }
            },
        }
    }

    /// Notes whether a permission request of a key waits for the user.
    pub fn set_pending_permission(&mut self, key: &str, pending: bool)
        requires
            old(self).well_formed(),
        ensures
            final(self).well_formed(),
            final(self).config == old(self).config,
            final(self)@ == asked(old(self)@, key@, pending),
    {
        let ghost m = self@;
        match self.take_state(key) {
            Some(state) => {
                let mut state: EngineInteractiveState = state;
                state.has_pending_permission = pending;
                self.put_state(key, state);
                proof {
                    lemma_put_back(m, key@, state@);
                }
            },
            None => {
                proof {
                    lemma_nothing_to_remove(m, key@);
                }
            },
        }
    }

    /// Whether the running turn of a key was stopped.
    pub fn is_stopped(&self, key: &str) -> (r: bool)
        requires
            self.well_formed(),
        ensures
            r == (self@.states.contains_key(key@) && self@.states[key@].stopped),
    {
        match self.interactive_states.get(key) {
            Some(state) => state.stopped,
            None => false,
        }
    }

    /// Stops the running turn of a key: it is told to end and its session is
    /// released; the conversation stays. Gives whether there is one.
    pub fn stop_turn(&mut self, key: &str) -> (r: bool)
        requires
            old(self).well_formed(),
        ensures
            final(self).well_formed(),
            final(self).config == old(self).config,
            r == old(self)@.states.contains_key(key@),
            final(self)@ == stopped(old(self)@, key@),
    {
        let ghost m = self@;
        match self.take_state(key) {
            Some(state) => {
                let mut state: EngineInteractiveState = state;
                state.stopped = true;
                let session: Session = state.session.share();
                self.put_state(key, state);
                proof {
                    lemma_put_back(m, key@, state@);
                }
                self.unlock(&session);
                true
            },
            None => {
                proof {
                    lemma_nothing_to_remove(m, key@);
                }
                false
            },
        }
    }

    /// Ends the conversation of a key and releases its session, so that the
    /// next message starts afresh. Gives the work directory and the tmux
    /// session under which its hooks are bound.
    pub fn cleanup_agent_session(&mut self, key: &str) -> (r: (String, Option<String>))
        requires
            old(self).well_formed(),
        ensures
            final(self).well_formed(),
            final(self).config == old(self).config,
            r.0@ == place_of(old(self)@, old(self).config, key@),
            text_opt(r.1) == match active_session(old(self)@.sessions, key@) {
                Some(s) => s.tmux_session,
                None => None,
            },
            final(self)@ == cleaned(old(self)@, key@),
    {
        let ghost m = self@;
        let work_dir: String = match self.sessions.get_work_dir(key) {
            Some(d) => d,
            None => self.config.work_dir.clone(),
        };
        let tmux: Option<String> = self.sessions.get_tmux_session(key);
        match self.take_state(key) {
            Some(state) => {
                self.unlock(&state.session);
            },
            None => {
                proof {
                    lemma_nothing_to_remove(m, key@);
                }
            },
        }
        (work_dir, tmux)
    }
}

// ---------------------------------------------------------------------------
// The state after each operation
// ---------------------------------------------------------------------------

pub open spec fn with_state(m: EngineModel, key: Seq<char>, s: StateModel) -> EngineModel {
    EngineModel { states: m.states.insert(key, s), ..m }
}

pub open spec fn without_state(m: EngineModel, key: Seq<char>) -> EngineModel {
    EngineModel { states: m.states.remove(key), ..m }
}

/// A lock is held or free afterwards.
pub open spec fn locked(m: EngineModel, lock: nat, held: bool) -> EngineModel {
    EngineModel { sessions: with_lock(m.sessions, lock, held), ..m }
}

/// Whether `after` is `m` with a conversation for the key: the one that runs,
/// or a new one on the key's active session.
pub open spec fn opened(m: EngineModel, key: Seq<char>, after: EngineModel) -> bool {
    if m.states.contains_key(key) {
        after == m
    } else {
        &&& ensured(m.sessions, key, after.sessions)
        &&& after == with_state(
            EngineModel { sessions: after.sessions, ..m },
            key,
            fresh_state(active_session(after.sessions, key)->0),
        )
    }
}

/// An unnamed session takes over the name of its channel.
pub open spec fn channel_named(m: EngineModel, key: Seq<char>, name: Option<Seq<char>>) ->
    EngineModel {
    if m.states[key].session.name is None && name is Some {
        EngineModel { sessions: renamed(m.sessions, key, name->0), ..m }
    } else {
        m
    }
}

pub open spec fn queued(m: EngineModel, key: Seq<char>, msg: QueuedMessage) -> EngineModel {
    with_state(
        m,
        key,
        StateModel { pending: m.states[key].pending.push(msg), ..m.states[key] },
    )
}

/// Whether a message of the key waits.
pub open spec fn has_pending(m: EngineModel, key: Seq<char>) -> bool {
    m.states.contains_key(key) && m.states[key].pending.len() > 0
}

/// The messages of a key that wait.
pub open spec fn waiting(m: EngineModel, key: Seq<char>) -> Seq<QueuedMessage> {
    if m.states.contains_key(key) {
        m.states[key].pending
    } else {
        Seq::empty()
    }
}

/// The state once nothing of a key waits any more.
pub open spec fn unqueued(m: EngineModel, key: Seq<char>) -> EngineModel {
    if m.states.contains_key(key) {
        with_state(m, key, StateModel { pending: Seq::empty(), ..m.states[key] })
    } else {
        m
    }
}

/// The state with or without a permission request of a key that waits for the
/// user.
pub open spec fn asked(m: EngineModel, key: Seq<char>, pending: bool) -> EngineModel {
    if m.states.contains_key(key) {
        with_state(m, key, StateModel { has_pending_permission: pending, ..m.states[key] })
    } else {
        m
    }
}

/// The directory that a key works in: that of its session, else the project's.
pub open spec fn place_of(m: EngineModel, config: ProjectConfig, key: Seq<char>) -> Seq<char> {
    match work_dir_of(m.sessions, key) {
        Some(d) => d,
        None => config.work_dir@,
    }
}

pub open spec fn drained(m: EngineModel, key: Seq<char>) -> EngineModel {
    with_state(
        m,
        key,
        StateModel { pending: m.states[key].pending.skip(1), ..m.states[key] },
    )
}

pub open spec fn begun(m: EngineModel, key: Seq<char>) -> EngineModel {
    if m.states.contains_key(key) {
        with_state(
            m,
            key,
            StateModel {
                can_decide: true,
                has_pending_permission: false,
                stopped: false,
                ..m.states[key]
            },
        )
    } else {
        m
    }
}

pub open spec fn ended(m: EngineModel, key: Seq<char>, approve_all: bool) -> EngineModel {
    if m.states.contains_key(key) {
        with_state(
            m,
            key,
            StateModel {
                approve_all,
                can_decide: false,
                has_pending_permission: false,
                ..m.states[key]
            },
        )
    } else {
        m
    }
}

pub open spec fn stopped(m: EngineModel, key: Seq<char>) -> EngineModel {
    if m.states.contains_key(key) {
        locked(
            with_state(m, key, StateModel { stopped: true, ..m.states[key] }),
            m.states[key].session.lock,
            false,
        )
    } else {
        m
    }
}

pub open spec fn cleaned(m: EngineModel, key: Seq<char>) -> EngineModel {
    if m.states.contains_key(key) {
        locked(without_state(m, key), m.states[key].session.lock, false)
    } else {
        m
    }
}

pub(crate) proof fn lemma_put_back(m: EngineModel, key: Seq<char>, s: StateModel)
    ensures
        with_state(without_state(m, key), key, s) == with_state(m, key, s),
{
    assert(m.states.remove(key).insert(key, s) =~= m.states.insert(key, s));
}

proof fn lemma_state_unchanged(m: EngineModel, key: Seq<char>)
    requires
        m.states.contains_key(key),
    ensures
        with_state(m, key, m.states[key]) == m,
{
    assert(m.states.insert(key, m.states[key]) =~= m.states);
}

pub(crate) proof fn lemma_nothing_to_remove(m: EngineModel, key: Seq<char>)
    requires
        !m.states.contains_key(key),
    ensures
        without_state(m, key) == m,
{
    assert(m.states.remove(key) =~= m.states);
}

pub(crate) proof fn lemma_ensured_keeps_locks(m: ManagerModel, key: Seq<char>, after: ManagerModel)
    requires
        ensured(m, key, after),
    ensures
        m.locks.len() <= after.locks.len(),
{
}

pub(crate) proof fn lemma_active_has_lock(s: SessionManager, key: Seq<char>)
    requires
        s.well_formed(),
        active_session(s@, key) is Some,
    ensures
        has_lock(active_session(s@, key)->0, s@.locks),
{
}

// ---------------------------------------------------------------------------
// Laws
// ---------------------------------------------------------------------------

/// Messages leave the queue in the order in which they came: one that is
/// queued behind others does not change what comes next, and one that is
/// queued alone comes next.
pub proof fn law_queue_keeps_order(m: EngineModel, key: Seq<char>, msg: QueuedMessage)
    requires
        m.states.contains_key(key),
    ensures
        has_pending(queued(m, key, msg), key),
        queued(m, key, msg).states[key].pending[0] == if has_pending(m, key) {
            m.states[key].pending[0]
        } else {
            msg
        },
        has_pending(m, key) ==> drained(queued(m, key, msg), key) == queued(
            drained(m, key),
            key,
            msg,
        ),
        !has_pending(m, key) ==> drained(queued(m, key, msg), key) == m,
{
    let s = m.states[key];
    let pending = s.pending;
    if has_pending(m, key) {
        assert(pending.push(msg).skip(1) =~= pending.skip(1).push(msg));
        let t = StateModel { pending: pending.skip(1).push(msg), ..s };
        assert(m.states.insert(key, StateModel { pending: pending.push(msg), ..s }).insert(key, t)
            =~= m.states.insert(key, StateModel { pending: pending.skip(1), ..s }).insert(key, t));
    } else {
        assert(pending.push(msg).skip(1) =~= pending);
        assert(m.states.insert(key, StateModel { pending: pending.push(msg), ..s }).insert(key, s)
            =~= m.states);
    }
}

/// A full queue has room again once a message left it.
pub proof fn law_drained_queue_has_room(m: EngineModel, key: Seq<char>)
    requires
        has_pending(m, key),
        m.states[key].pending.len() <= MAX_QUEUED_MESSAGES,
    ensures
        drained(m, key).states[key].pending.len() < MAX_QUEUED_MESSAGES,
{
}

/// Ending the conversation of one key leaves those of the others alone, and
/// leaves its own session free.
pub proof fn law_cleanup_is_local(m: EngineModel, key: Seq<char>, other: Seq<char>)
    requires
        m.states.contains_key(key),
        m.states[key].session.lock < m.sessions.locks.len(),
    ensures
        !cleaned(m, key).states.contains_key(key),
        !busy(m.states[key].session, cleaned(m, key).sessions.locks),
        other != key ==> (cleaned(m, key).states.contains_key(other)
            <==> m.states.contains_key(other)),
        other != key && m.states.contains_key(other) ==> cleaned(m, key).states[other]
            == m.states[other],
{
}

/// `/stop` ends the turn but keeps the conversation, its queue and its session.
pub proof fn law_stop_keeps_the_conversation(m: EngineModel, key: Seq<char>)
    requires
        m.states.contains_key(key),
        m.states[key].session.lock < m.sessions.locks.len(),
    ensures
        stopped(m, key).states.contains_key(key),
        stopped(m, key).states[key].stopped,
        stopped(m, key).states[key].session == m.states[key].session,
        stopped(m, key).states[key].pending == m.states[key].pending,
        !busy(m.states[key].session, stopped(m, key).sessions.locks),
{
}

/// A choice of model or mode counts for its key and its agent, and for no other;
/// without one the agent's own counts, and for the mode at last the project's.
pub proof fn law_choice_counts_where_it_was_made(
    m: EngineModel,
    config: ProjectConfig,
    key: Seq<char>,
    agent: Seq<char>,
    chosen: Seq<char>,
    other: Seq<char>,
)
    ensures
        ({
            let a = EngineModel { models: m.models.insert((key, agent), chosen), ..m };
            let b = EngineModel { modes: m.modes.insert((key, agent), chosen), ..m };
            &&& model_for(a, config, key, agent) == Some(chosen)
            &&& mode_for(b, config, key, agent) == chosen
            &&& other != key ==> model_for(a, config, other, agent) == model_for(
                m,
                config,
                other,
                agent,
            )
            &&& other != agent ==> mode_for(b, config, key, other) == mode_for(
                m,
                config,
                key,
                other,
            )
            &&& mode_for(a, config, key, agent) == mode_for(m, config, key, agent)
        }),
        !m.modes.contains_key((key, agent)) && agent_named(config.agents@, agent) is None
            ==> mode_for(m, config, key, agent) == config.agent.mode@,
        !m.modes.contains_key((key, agent)) && agent_named(config.agents@, agent) is Some
            ==> mode_for(m, config, key, agent) == agent_named(config.agents@, agent)->0.mode@,
{
}

/// The agent that is found has the name, and is one of the project's; where none
/// is found, none has it.
pub proof fn law_agent_is_found_by_its_name(agents: Seq<AgentEntry>, name: Seq<char>)
    ensures
        agent_named(agents, name) is Some <==> agent_names(agents).contains(name),
        agent_named(agents, name) is Some ==> agent_named(agents, name)->0.name@ == name
            && agents.contains(agent_named(agents, name)->0),
    decreases agents.len(),
{
    let names = agent_names(agents);
    if agents.len() > 0 {
        let rest = agents.skip(1);
        law_agent_is_found_by_its_name(rest, name);
        if agents[0].name@ == name {
            assert(names[0] == name);
            assert(agents.contains(agents[0]));
        } else {
            if agent_named(rest, name) is Some {
                let a = agent_named(rest, name)->0;
                let i = choose|i: int| 0 <= i < rest.len() && rest[i] == a;
                assert(agents[i + 1] == a);
                assert(names[i + 1] == name);
            }
            if names.contains(name) {
                let i = choose|i: int| 0 <= i < names.len() && names[i] == name;
                assert(agent_names(rest)[i - 1] == name);
            }
        }
    }
}

/// Without a choice a key works with the default agent; the verbose switch
/// changes what is shown, and nothing else of the display settings.
pub proof fn law_defaults_hold_without_a_choice(
    m: EngineModel,
    config: ProjectConfig,
    key: Seq<char>,
)
    ensures
        !m.active.contains_key(key) ==> active_agent(m, config, key) == config.default_agent@,
        !m.states.contains_key(key) ==> display_for(m, config, key) == config.display,
        m.states.contains_key(key) && m.states[key].verbose_override is Some ==> display_for(
            m,
            config,
            key,
        ).verbose == m.states[key].verbose_override->0,
        display_for(m, config, key).tool_max_len == config.display.tool_max_len,
        display_for(m, config, key).thinking_messages == config.display.thinking_messages,
        display_for(m, config, key).tool_messages == config.display.tool_messages,
        display_for(m, config, key).context_window == config.display.context_window,
        display_for(m, config, key).thinking_max_len == config.display.thinking_max_len,
        display_for(m, config, key).context_indicator == config.display.context_indicator,
{
}

/// Tools are shown in one message only for an agent in a tmux pane whose hooks
/// report them.
pub proof fn law_only_hooks_share_a_message(m: EngineModel, config: ProjectConfig, key: Seq<char>)
    ensures
        inplace_progress(m, config, key) ==> ({
            let e = agent_named(config.agents@, active_agent(m, config, key));
            e is Some && e->0.backend@ == "tmux"@ && e->0.tmux is Some && e->0.tmux->0.hook_relay
        }),
        agent_named(config.agents@, active_agent(m, config, key)) matches Some(e)
            && e.backend@ == "tmux"@ && e.tmux is Some && e.tmux->0.hook_relay ==> inplace_progress(
            m,
            config,
            key,
        ),
{
}

/// After a restart each key works with the agent of its active session, where
/// that is still configured, and with the default one otherwise.
pub proof fn law_agents_are_restored(m: ManagerModel, known: Seq<Seq<char>>, key: Seq<char>)
    ensures
        active_session(m, key) is Some && active_session(m, key)->0.agent_type.len() > 0 && trimmed(
            active_session(m, key)->0.agent_type,
        ) == active_session(m, key)->0.agent_type && known.contains(
            active_session(m, key)->0.agent_type,
        ) ==> restored(m, known).contains_key(key) && restored(m, known)[key] == active_session(
            m,
            key,
        )->0.agent_type,
        restored(m, known).contains_key(key) ==> active_session(m, key) is Some && (known.len()
            == 0 || known.contains(restored(m, known)[key])),
        active_session(m, key) is None ==> !restored(m, known).contains_key(key),
{
}

/// A turn starts with nothing pending and nobody having stopped it, and only
/// while it runs can a request be decided. What was allowed for good stays so.
pub proof fn law_turn_starts_afresh(m: EngineModel, key: Seq<char>, allowed: bool)
    requires
        m.states.contains_key(key),
    ensures
        ({
            let s = begun(m, key).states[key];
            let e = ended(m, key, allowed).states[key];
            &&& s.can_decide && !s.has_pending_permission && !s.stopped
            &&& s.approve_all == m.states[key].approve_all
            &&& s.pending == m.states[key].pending && s.session == m.states[key].session
            &&& !e.can_decide && !e.has_pending_permission
            &&& e.approve_all == allowed
            &&& e.pending == m.states[key].pending && e.session == m.states[key].session
        }),
{
}

/// A session without a name takes that of its channel; one with a name keeps it.
pub proof fn law_channel_names_its_session(m: EngineModel, key: Seq<char>, name: Seq<char>)
    requires
        m.states.contains_key(key),
        active_session(m.sessions, key) is Some,
    ensures
        m.states[key].session.name is None ==> active_session(
            channel_named(m, key, Some(name)).sessions,
            key,
        )->0.name == Some(name),
        m.states[key].session.name is Some ==> channel_named(m, key, Some(name)) == m,
        channel_named(m, key, None) == m,
{
}

/// What is dropped from a queue is what would have come out of it, message by
/// message, and afterwards nothing waits; the rest of the conversation stays, and
/// so do those of other keys.
pub proof fn law_dropped_queue_is_empty(m: EngineModel, key: Seq<char>, other: Seq<char>)
    requires
        other != key,
    ensures
        has_pending(m, key) <==> waiting(m, key).len() > 0,
        has_pending(m, key) ==> waiting(drained(m, key), key) == waiting(m, key).skip(1),
        !has_pending(unqueued(m, key), key) && waiting(unqueued(m, key), key).len() == 0,
        waiting(unqueued(m, key), other) == waiting(m, other),
        m.states.contains_key(key) ==> unqueued(m, key).states[key].session
            == m.states[key].session && unqueued(m, key).states[key].approve_all
            == m.states[key].approve_all,
        unqueued(m, key).sessions == m.sessions,
{
}

/// A request that is put to the user waits until it is taken back, for its key
/// alone; what is allowed for good does not change by it.
pub proof fn law_request_waits_until_it_is_taken_back(
    m: EngineModel,
    key: Seq<char>,
    other: Seq<char>,
)
    requires
        m.states.contains_key(key),
        other != key,
    ensures
        asked(m, key, true).states[key].has_pending_permission,
        !asked(asked(m, key, true), key, false).states[key].has_pending_permission,
        asked(m, key, true).states[key].approve_all == m.states[key].approve_all,
        asked(m, key, true).states[key].pending == m.states[key].pending,
        asked(m, key, true).states[key].can_decide == m.states[key].can_decide,
        asked(m, key, true).states.contains_key(other) == m.states.contains_key(other),
        m.states.contains_key(other) ==> asked(m, key, true).states[other] == m.states[other],
{
}

/// A key works where its session says, and in the directory of the project where
/// it says nothing.
pub proof fn law_key_works_in_its_directory(
    m: EngineModel,
    config: ProjectConfig,
    key: Seq<char>,
    dir: Seq<char>,
)
    ensures
        work_dir_of(m.sessions, key) == Some(dir) ==> place_of(m, config, key) == dir,
        active_session(m.sessions, key) is None ==> place_of(m, config, key) == config.work_dir@,
{
}

} // verus!
