//! Sessions: non-blocking locks, bounded queues and the session manager.
//!
//! Callers try to lock a session without blocking. If it is busy, messages are
//! queued and drained when the lock is released. A lock is a cell that copies
//! of a session share; a session that is rebuilt gets a cell of its own.

use crate::clock::{earlier, is_earlier, new_id, now, uuid_shaped, valid_time, Timestamp};
use crate::message::{FileAttachment, ImageAttachment};
use crate::platform::ReplyTarget;
use crate::table::Table;
use crate::text::{clone_opt, law_replacing_a_character, replace, replaced, same, str_opt, text_opt};
use std::collections::VecDeque;
use vstd::prelude::*;
use vstd::string::*;

verus! {

// ---------------------------------------------------------------------------
// Locks
// ---------------------------------------------------------------------------

/// The lock cells of all sessions.
pub struct Locks {
    busy: Vec<bool>,
}

impl View for Locks {
    type V = Seq<bool>;

    closed spec fn view(&self) -> Seq<bool> {
        self.busy@
    }
}

impl Locks {
    pub fn new() -> (r: Locks)
        ensures
            r@ == Seq::<bool>::empty(),
    {
        Locks { busy: Vec::new() }
    }

    /// A new cell.
    fn cell(&mut self, busy: bool) -> (r: usize)
        ensures
            r == old(self)@.len(),
            final(self)@ == old(self)@.push(busy),
    {
        let r: usize = self.busy.len();
        self.busy.push(busy);
        r
    }
}

// ---------------------------------------------------------------------------
// Session
// ---------------------------------------------------------------------------

/// A chat session.
#[derive(Debug)]
pub struct Session {
    pub id: String,
    pub name: Option<String>,
    pub agent_session_id: Option<String>,
    pub agent_type: String,
    pub created_at: Timestamp,
    pub updated_at: Timestamp,
    pub work_dir: Option<String>,
    /// The tmux session that this channel is attached to, where one was chosen.
    pub tmux_session: Option<String>,
    /// The cell of [`Locks`] that is this session's lock.
    pub lock: usize,
}

/// What a session holds.
#[verifier::ext_equal]
pub struct SessionModel {
    pub id: Seq<char>,
    pub name: Option<Seq<char>>,
    pub agent_session_id: Option<Seq<char>>,
    pub agent_type: Seq<char>,
    pub created_at: Timestamp,
    pub updated_at: Timestamp,
    pub work_dir: Option<Seq<char>>,
    pub tmux_session: Option<Seq<char>>,
    pub lock: nat,
}

impl View for Session {
    type V = SessionModel;

    open spec fn view(&self) -> SessionModel {
        SessionModel {
            id: self.id@,
            name: text_opt(self.name),
            agent_session_id: text_opt(self.agent_session_id),
            agent_type: self.agent_type@,
            created_at: self.created_at,
            updated_at: self.updated_at,
            work_dir: text_opt(self.work_dir),
            tmux_session: text_opt(self.tmux_session),
            lock: self.lock as nat,
        }
    }
}

/// Whether a session's lock is held.
pub open spec fn busy(s: SessionModel, locks: Seq<bool>) -> bool {
    locks[s.lock as int]
}

/// Whether a session's lock is one of `locks`.
pub open spec fn has_lock(s: SessionModel, locks: Seq<bool>) -> bool {
    s.lock < locks.len()
}

/// A session just made.
pub open spec fn new_session_model(
    id: Seq<char>,
    at: Timestamp,
    name: Option<Seq<char>>,
    agent_type: Seq<char>,
    work_dir: Option<Seq<char>>,
    lock: nat,
) -> SessionModel {
    SessionModel {
        id,
        name,
        agent_session_id: None,
        agent_type,
        created_at: at,
        updated_at: at,
        work_dir,
        tmux_session: None,
        lock,
    }
}

/// The agent type of a session; `default` where none is recorded.
pub open spec fn agent_type_of(s: SessionModel, default: Seq<char>) -> Seq<char> {
    if s.agent_type.len() == 0 {
        default
    } else {
        s.agent_type
    }
}

impl Session {
    /// A new session with a random id and no agent type.
    pub fn new(locks: &mut Locks, name: Option<String>) -> (r: Session)
        ensures
            uuid_shaped(r@.id),
            r@ == new_session_model(
                r@.id,
                r@.created_at,
                text_opt(name),
                Seq::empty(),
                None,
                old(locks)@.len(),
            ),
            final(locks)@ == old(locks)@.push(false),
    {
        Self::new_with_agent_type(locks, name, String::new())
    }

    /// A new session with a random id.
    pub fn new_with_agent_type(locks: &mut Locks, name: Option<String>, agent_type: String) -> (r:
        Session)
        ensures
            uuid_shaped(r@.id),
            r@ == new_session_model(
                r@.id,
                r@.created_at,
                text_opt(name),
                agent_type@,
                None,
                old(locks)@.len(),
            ),
            final(locks)@ == old(locks)@.push(false),
    {
        Self::made(locks, new_id(), now(), name, agent_type, None)
    }

    /// The session with the given id and time.
    pub fn made(
        locks: &mut Locks,
        id: String,
        at: Timestamp,
        name: Option<String>,
        agent_type: String,
        work_dir: Option<String>,
    ) -> (r: Session)
        ensures
            r@ == new_session_model(
                id@,
                at,
                text_opt(name),
                agent_type@,
                text_opt(work_dir),
                old(locks)@.len(),
            ),
            final(locks)@ == old(locks)@.push(false),
    {
        let lock: usize = locks.cell(false);
        Session {
            id,
            name,
            agent_session_id: None,
            agent_type,
            created_at: at,
            updated_at: at,
            work_dir,
            tmux_session: None,
            lock,
        }
    }

    /// A copy that shares the lock.
    pub fn share(&self) -> (r: Session)
        ensures
            r@ == self@,
    {
        Session {
            id: self.id.clone(),
            name: clone_opt(&self.name),
            agent_session_id: clone_opt(&self.agent_session_id),
            agent_type: self.agent_type.clone(),
            created_at: self.created_at,
            updated_at: self.updated_at,
            work_dir: clone_opt(&self.work_dir),
            tmux_session: clone_opt(&self.tmux_session),
            lock: self.lock,
        }
    }

    /// The agent type; `default` where none is recorded.
    pub fn effective_agent_type<'a>(&'a self, default: &'a str) -> (r: &'a str)
        ensures
            r@ == agent_type_of(self@, default@),
    {
        if self.agent_type.as_str().is_empty() {
            default
        } else {
            self.agent_type.as_str()
        }
    }

    /// Tries to lock the session without blocking; the guard stands for the
    /// lock, and there is none where the session is busy.
    pub fn try_lock<'a>(&'a self, locks: &mut Locks) -> (r: Option<SessionGuard<'a>>)
        requires
            has_lock(self@, old(locks)@),
        ensures
            r is Some <==> !busy(self@, old(locks)@),
            r is Some ==> r->0@ == self@,
            final(locks)@ == old(locks)@.update(self@.lock as int, true),
    {
        if self.try_lock_explicit(locks) {
            Some(SessionGuard { session: self })
        } else {
            None
        }
    }

    /// Whether the session is locked.
    pub fn is_busy(&self, locks: &Locks) -> (r: bool)
        requires
            has_lock(self@, locks@),
        ensures
            r == busy(self@, locks@),
    {
        locks.busy[self.lock]
    }

    /// Releases the session's lock.
    pub fn unlock(&self, locks: &mut Locks)
        requires
            has_lock(self@, old(locks)@),
        ensures
            final(locks)@ == old(locks)@.update(self@.lock as int, false),
    {
        locks.busy.set(self.lock, false);
    }

    /// Locks the session; gives `false` where it is busy.
    pub fn try_lock_explicit(&self, locks: &mut Locks) -> (r: bool)
        requires
            has_lock(self@, old(locks)@),
        ensures
            r == !busy(self@, old(locks)@),
            final(locks)@ == old(locks)@.update(self@.lock as int, true),
    {
        if locks.busy[self.lock] {
            assert(locks@ =~= locks@.update(self.lock as int, true));
            false
        } else {
            locks.busy.set(self.lock, true);
            true
        }
    }
}

/// Stands for the lock of a session while it is held.
pub struct SessionGuard<'a> {
    session: &'a Session,
}

impl<'a> View for SessionGuard<'a> {
    type V = SessionModel;

    closed spec fn view(&self) -> SessionModel {
        self.session@
    }
}

impl<'a> SessionGuard<'a> {
    /// The locked session.
    pub fn session(&self) -> (r: &Session)
        ensures
            r@ == self@,
    {
        self.session
    }

    /// Gives the lock back.
    pub fn release(self, locks: &mut Locks)
        requires
            has_lock(self@, old(locks)@),
        ensures
            final(locks)@ == old(locks)@.update(self@.lock as int, false),
    {
        self.session.unlock(locks);
    }
}

// ---------------------------------------------------------------------------
// Queue
// ---------------------------------------------------------------------------

/// A message waiting for a busy session.
pub struct QueuedMessage {
    pub text: String,
    pub images: Vec<ImageAttachment>,
    pub files: Vec<FileAttachment>,
    pub voice: Option<String>,
    pub from: String,
    pub reply_ctx: ReplyTarget,
}

/// Maximum number of messages that can be queued for a session.
pub const MAX_QUEUED_MESSAGES: usize = 5;

/// An active conversation with its queue.
pub struct InteractiveState {
    pub session: Session,
    pub pending_messages: VecDeque<QueuedMessage>,
}

impl InteractiveState {
    /// Whether the queue keeps to its bound.
    pub open spec fn well_formed(&self) -> bool {
        self.pending_messages@.len() <= MAX_QUEUED_MESSAGES
    }

    pub fn new(session: Session) -> (r: Self)
        ensures
            r.session == session,
            r.pending_messages@ == Seq::<QueuedMessage>::empty(),
            r.well_formed(),
    {
        InteractiveState { session, pending_messages: VecDeque::new() }
    }

    /// Queues a message for later; gives `false` where the queue is full.
    pub fn queue_message(&mut self, msg: QueuedMessage) -> (r: bool)
        requires
            old(self).well_formed(),
        ensures
            r == (old(self).pending_messages@.len() < MAX_QUEUED_MESSAGES),
            final(self).pending_messages@ == if r {
                old(self).pending_messages@.push(msg)
            } else {
                old(self).pending_messages@
            },
            final(self).session == old(self).session,
            final(self).well_formed(),
    {
        if self.pending_messages.len() >= MAX_QUEUED_MESSAGES {
            return false;
        }
        self.pending_messages.push_back(msg);
        true
    }

    /// Takes the message that has waited longest.
    pub fn drain_next(&mut self) -> (r: Option<QueuedMessage>)
        requires
            old(self).well_formed(),
        ensures
            r is Some <==> old(self).pending_messages@.len() > 0,
            r is Some ==> r->0 == old(self).pending_messages@[0] && final(self).pending_messages@
                == old(self).pending_messages@.skip(1),
            r is None ==> final(self).pending_messages@ == old(self).pending_messages@,
            final(self).session == old(self).session,
            final(self).well_formed(),
    {
        self.pending_messages.pop_front()
    }

    pub fn queue_len(&self) -> (r: usize)
        ensures
            r == self.pending_messages@.len(),
    {
        self.pending_messages.len()
    }
}


// ---------------------------------------------------------------------------
// Session manager
// ---------------------------------------------------------------------------

/// A session as it is saved.
#[derive(Debug)]
pub struct SessionData {
    pub id: String,
    pub key: String,
    pub name: Option<String>,
    pub agent_session_id: Option<String>,
    pub agent_type: String,
    pub created_at: Timestamp,
    pub updated_at: Timestamp,
    pub work_dir: Option<String>,
    pub tmux_session: Option<String>,
}

/// What a saved session holds.
#[verifier::ext_equal]
pub struct DataModel {
    pub id: Seq<char>,
    pub key: Seq<char>,
    pub name: Option<Seq<char>>,
    pub agent_session_id: Option<Seq<char>>,
    pub agent_type: Seq<char>,
    pub created_at: Timestamp,
    pub updated_at: Timestamp,
    pub work_dir: Option<Seq<char>>,
    pub tmux_session: Option<Seq<char>>,
}

impl View for SessionData {
    type V = DataModel;

    open spec fn view(&self) -> DataModel {
        DataModel {
            id: self.id@,
            key: self.key@,
            name: text_opt(self.name),
            agent_session_id: text_opt(self.agent_session_id),
            agent_type: self.agent_type@,
            created_at: self.created_at,
            updated_at: self.updated_at,
            work_dir: text_opt(self.work_dir),
            tmux_session: text_opt(self.tmux_session),
        }
    }
}

/// The marker that makes an agent continue its most recent session.
pub const CONTINUE_SESSION: &'static str = "__continue__";

/// An agent session id as it is saved and loaded: the marker is none.
pub open spec fn resumable(agent_session_id: Option<Seq<char>>) -> Option<Seq<char>> {
    if agent_session_id == Some(CONTINUE_SESSION@) {
        None
    } else {
        agent_session_id
    }
}

/// A session as it is saved under a key.
pub open spec fn data_of(s: SessionModel, key: Seq<char>) -> DataModel {
    DataModel {
        id: s.id,
        key,
        name: s.name,
        agent_session_id: resumable(s.agent_session_id),
        agent_type: s.agent_type,
        created_at: s.created_at,
        updated_at: s.updated_at,
        work_dir: s.work_dir,
        tmux_session: s.tmux_session,
    }
}

/// A saved session as it is loaded, with the given lock.
pub open spec fn session_of(d: DataModel, lock: nat) -> SessionModel {
    SessionModel {
        id: d.id,
        name: d.name,
        agent_session_id: resumable(d.agent_session_id),
        agent_type: d.agent_type,
        created_at: d.created_at,
        updated_at: d.updated_at,
        work_dir: d.work_dir,
        tmux_session: d.tmux_session,
        lock,
    }
}

fn strip_marker(sid: &Option<String>) -> (r: Option<String>)
    ensures
        text_opt(r) == resumable(text_opt(*sid)),
{
    match sid {
        Some(x) => if same(x.as_str(), CONTINUE_SESSION) {
            None
        } else {
            Some(x.clone())
        },
        None => None,
    }
}

impl SessionData {
    fn copy(&self) -> (r: SessionData)
        ensures
            r@ == self@,
    {
        SessionData {
            id: self.id.clone(),
            key: self.key.clone(),
            name: clone_opt(&self.name),
            agent_session_id: clone_opt(&self.agent_session_id),
            agent_type: self.agent_type.clone(),
            created_at: self.created_at,
            updated_at: self.updated_at,
            work_dir: clone_opt(&self.work_dir),
            tmux_session: clone_opt(&self.tmux_session),
        }
    }

    /// The session of this data, with a free lock of its own.
    pub fn into_session(self, locks: &mut Locks) -> (r: Session)
        ensures
            r@ == session_of(self@, old(locks)@.len()),
            final(locks)@ == old(locks)@.push(false),
    {
        let lock: usize = locks.cell(false);
        let agent_session_id: Option<String> = strip_marker(&self.agent_session_id);
        Session {
            id: self.id,
            name: self.name,
            agent_session_id,
            agent_type: self.agent_type,
            created_at: self.created_at,
            updated_at: self.updated_at,
            work_dir: self.work_dir,
            tmux_session: self.tmux_session,
            lock,
        }
    }

    /// The data of a session under a key.
    pub fn from_session(session: &Session, key: &str) -> (r: SessionData)
        ensures
            r@ == data_of(session@, key@),
    {
        SessionData {
            id: session.id.clone(),
            key: key.to_owned(),
            name: clone_opt(&session.name),
            agent_session_id: strip_marker(&session.agent_session_id),
            agent_type: session.agent_type.clone(),
            created_at: session.created_at,
            updated_at: session.updated_at,
            work_dir: clone_opt(&session.work_dir),
            tmux_session: clone_opt(&session.tmux_session),
        }
    }
}

/// The saved state: sessions by id, and the active session of each key.
pub struct PersistedState {
    pub sessions: Table<SessionData>,
    pub active_keys: Table<String>,
}

/// What a session manager holds.
pub struct ManagerModel {
    /// Sessions by id.
    pub sessions: Map<Seq<char>, SessionModel>,
    /// The id of the active session of each key.
    pub active: Map<Seq<char>, Seq<char>>,
    /// The key of each session.
    pub keys: Map<Seq<char>, Seq<char>>,
    /// The ids of the sessions, in the order in which they came in.
    pub order: Seq<Seq<char>>,
    pub locks: Seq<bool>,
    /// Whether there is something to save.
    pub unsaved: bool,
    /// The agent type of sessions that record none.
    pub default_type: Seq<char>,
}

/// Keeps the sessions of all keys. Which session is active is kept for each
/// key; what is to be saved after a change is told by [`SessionManager::unsaved`].
pub struct SessionManager {
    sessions: Table<Session>,
    active_keys: Table<String>,
    session_keys: Table<String>,
    locks: Locks,
    unsaved: bool,
    default_type: String,
}

impl View for SessionManager {
    type V = ManagerModel;

    closed spec fn view(&self) -> ManagerModel {
        ManagerModel {
            sessions: self.sessions@,
            active: self.active_keys@,
            keys: self.session_keys@,
            order: self.sessions.keys(),
            locks: self.locks@,
            unsaved: self.unsaved,
            default_type: self.default_type@,
        }
    }
}

/// Every session has a key, a lock and times of the calendar, and its place in
/// the order.
pub open spec fn consistent(m: ManagerModel) -> bool {
    &&& m.sessions.dom() == m.keys.dom()
    &&& m.order.no_duplicates()
    &&& forall|id: Seq<char>| #[trigger] m.order.contains(id) <==> m.sessions.contains_key(id)
    &&& forall|id: Seq<char>| #[trigger]
        m.sessions.contains_key(id) ==> has_lock(m.sessions[id], m.locks) && valid_times(
            m.sessions[id],
        )
}

/// Whether the times of a session are times of the calendar.
pub open spec fn valid_times(s: SessionModel) -> bool {
    valid_time(s.created_at) && valid_time(s.updated_at)
}

/// Whether every session is filed under its own id. It is so of every manager,
/// but for one that loaded a state in which it is not.
pub open spec fn well_filed(m: ManagerModel) -> bool {
    forall|id: Seq<char>| #[trigger] m.sessions.contains_key(id) ==> m.sessions[id].id == id
}

/// A lock is held or free afterwards.
pub open spec fn with_lock(m: ManagerModel, lock: nat, held: bool) -> ManagerModel {
    ManagerModel { locks: m.locks.update(lock as int, held), ..m }
}

/// The active session of a key.
pub open spec fn active_session(m: ManagerModel, key: Seq<char>) -> Option<SessionModel> {
    if m.active.contains_key(key) && m.sessions.contains_key(m.active[key]) {
        Some(m.sessions[m.active[key]])
    } else {
        None
    }
}

/// The work directory of the active session of a key.
pub open spec fn work_dir_of(m: ManagerModel, key: Seq<char>) -> Option<Seq<char>> {
    match active_session(m, key) {
        Some(s) => s.work_dir,
        None => None,
    }
}

/// A new session, made the active one of its key; it takes over the work
/// directory of the one before.
pub open spec fn created(
    m: ManagerModel,
    key: Seq<char>,
    name: Option<Seq<char>>,
    agent_type: Seq<char>,
    id: Seq<char>,
    at: Timestamp,
) -> ManagerModel {
    ManagerModel {
        sessions: m.sessions.insert(
            id,
            new_session_model(id, at, name, agent_type, work_dir_of(m, key), m.locks.len()),
        ),
        active: m.active.insert(key, id),
        keys: m.keys.insert(id, key),
        order: if m.sessions.contains_key(id) {
            m.order
        } else {
            m.order.push(id)
        },
        locks: m.locks.push(false),
        unsaved: true,
        ..m
    }
}

/// The active session of a key is replaced by `s`.
pub open spec fn rebuilt(m: ManagerModel, key: Seq<char>, s: SessionModel, is_busy: bool) ->
    ManagerModel {
    ManagerModel {
        sessions: m.sessions.insert(m.active[key], s),
        locks: m.locks.push(is_busy),
        unsaved: true,
        ..m
    }
}

/// The work directory of the active session is set; nothing happens where
/// there is none.
pub open spec fn with_work_dir(m: ManagerModel, key: Seq<char>, dir: Seq<char>, at: Timestamp) ->
    ManagerModel {
    match active_session(m, key) {
        Some(s) => rebuilt(
            m,
            key,
            SessionModel { work_dir: Some(dir), updated_at: at, lock: m.locks.len(), ..s },
            false,
        ),
        None => m,
    }
}

/// The tmux session of the active session is set.
pub open spec fn with_tmux(m: ManagerModel, key: Seq<char>, tmux: Seq<char>, at: Timestamp) ->
    ManagerModel {
    match active_session(m, key) {
        Some(s) => rebuilt(
            m,
            key,
            SessionModel { tmux_session: Some(tmux), updated_at: at, lock: m.locks.len(), ..s },
            false,
        ),
        None => m,
    }
}

/// The agent session id of the active session is set; an empty one is none.
pub open spec fn with_agent_session(
    m: ManagerModel,
    key: Seq<char>,
    sid: Seq<char>,
    at: Timestamp,
) -> ManagerModel {
    match active_session(m, key) {
        Some(s) => rebuilt(
            m,
            key,
            SessionModel {
                agent_session_id: if sid.len() == 0 {
                    None
                } else {
                    Some(sid)
                },
                updated_at: at,
                lock: m.locks.len(),
                ..s
            },
            false,
        ),
        None => m,
    }
}

/// The active session is renamed; it stays as busy as it was.
pub open spec fn renamed(m: ManagerModel, key: Seq<char>, name: Seq<char>) -> ManagerModel {
    match active_session(m, key) {
        Some(s) => rebuilt(
            m,
            key,
            SessionModel { name: Some(name), lock: m.locks.len(), ..s },
            busy(s, m.locks),
        ),
        None => m,
    }
}

/// A session is gone; where it was the active one of the key, none is.
pub open spec fn deleted(m: ManagerModel, key: Seq<char>, id: Seq<char>) -> ManagerModel {
    ManagerModel {
        sessions: m.sessions.remove(id),
        active: if m.active.contains_key(key) && m.active[key] == id {
            m.active.remove(key)
        } else {
            m.active
        },
        keys: m.keys.remove(id),
        order: m.order.remove_value(id),
        unsaved: true,
        ..m
    }
}

/// Whether a session can be made the active one of a key.
pub open spec fn switchable(m: ManagerModel, key: Seq<char>, id: Seq<char>) -> bool {
    m.sessions.contains_key(id) && m.keys.contains_key(id) && m.keys[id] == key
}

pub open spec fn switched(m: ManagerModel, key: Seq<char>, id: Seq<char>) -> ManagerModel {
    if switchable(m, key, id) {
        ManagerModel { active: m.active.insert(key, id), unsaved: true, ..m }
    } else {
        m
    }
}

/// Whether `after` is `m` with a session for the key: the one that is active,
/// or a new one with a random id.
pub open spec fn ensured(m: ManagerModel, key: Seq<char>, after: ManagerModel) -> bool {
    if active_session(m, key) is Some {
        after == m
    } else {
        exists|id: Seq<char>, at: Timestamp|
            uuid_shaped(id) && valid_time(at) && after == #[trigger] created(
                m,
                key,
                None,
                Seq::empty(),
                id,
                at,
            )
    }
}

/// The name under which the sessions of a directory are kept: hyphens stand for
/// its slashes.
pub open spec fn encoded(work_dir: Seq<char>) -> Seq<char> {
    replaced(work_dir, "/"@, "-"@)
}

/// The name of the directory that holds the state of a work directory.
pub fn encode_work_dir(work_dir: &str) -> (r: String)
    ensures
        r@ == encoded(work_dir@),
{
    proof {
        reveal_strlit("/");
    }
    replace(work_dir, "/", "-")
}

impl SessionManager {
    pub closed spec fn tables_well_formed(&self) -> bool {
        self.sessions.well_formed() && self.active_keys.well_formed()
            && self.session_keys.well_formed()
    }

    /// Every session has a key, a lock and times of the calendar.
    pub open spec fn well_formed(&self) -> bool {
        self.tables_well_formed() && consistent(self@)
    }

    /// A manager without sessions. A session that records no agent type counts
    /// as one of `default_type`.
    pub fn new(default_type: String) -> (r: SessionManager)
        ensures
            r.well_formed(),
            r@ == (ManagerModel {
                sessions: Map::empty(),
                active: Map::empty(),
                keys: Map::empty(),
                order: Seq::empty(),
                locks: Seq::empty(),
                unsaved: false,
                default_type: default_type@,
            }),
    {
        let r: SessionManager = SessionManager {
            sessions: Table::new(),
            active_keys: Table::new(),
            session_keys: Table::new(),
            locks: Locks::new(),
            unsaved: false,
            default_type,
        };
        assert(r@.sessions.dom() =~= r@.keys.dom());
        r
    }

    /// Whether something changed since the state was last saved.
    pub fn unsaved(&self) -> (r: bool)
        ensures
            r == self@.unsaved,
    {
        self.unsaved
    }

    /// Notes that the state was saved.
    pub fn mark_saved(&mut self)
        requires
            old(self).well_formed(),
        ensures
            final(self).well_formed(),
            final(self)@ == (ManagerModel { unsaved: false, ..old(self)@ }),
    {
        self.unsaved = false;
    }

    /// Locks a session; gives `false` where it is busy.
    pub fn try_lock_session(&mut self, s: &Session) -> (r: bool)
        requires
            old(self).well_formed(),
            has_lock(s@, old(self)@.locks),
        ensures
            final(self).well_formed(),
            r == !busy(s@, old(self)@.locks),
            final(self)@ == with_lock(old(self)@, s@.lock, true),
    {
        s.try_lock_explicit(&mut self.locks)
    }

    /// Releases the lock of a session.
    pub fn unlock_session(&mut self, s: &Session)
        requires
            old(self).well_formed(),
            has_lock(s@, old(self)@.locks),
        ensures
            final(self).well_formed(),
            final(self)@ == with_lock(old(self)@, s@.lock, false),
    {
        s.unlock(&mut self.locks);
    }

    /// Whether a session is locked.
    pub fn is_session_busy(&self, s: &Session) -> (r: bool)
        requires
            has_lock(s@, self@.locks),
        ensures
            r == busy(s@, self@.locks),
    {
        s.is_busy(&self.locks)
    }

    /// The active session of a key, where there is one.
    pub fn active(&self, key: &str) -> (r: Option<Session>)
        requires
            self.well_formed(),
        ensures
            match r {
                Some(s) => active_session(self@, key@) == Some(s@),
                None => active_session(self@, key@) is None,
            },
    {
        match self.active_keys.get(key) {
            Some(id) => match self.sessions.get(id.as_str()) {
                Some(s) => Some(s.share()),
                None => None,
            },
            None => None,
        }
    }

    /// The active session of a key; a new one where there is none.
    pub fn get_or_create(&mut self, key: &str) -> (r: Session)
        requires
            old(self).well_formed(),
        ensures
            final(self).well_formed(),
            ensured(old(self)@, key@, final(self)@),
            active_session(final(self)@, key@) == Some(r@),
    {
        match self.active(key) {
            Some(s) => s,
            None => self.new_session(key, None),
        }
    }

    /// A new session for a key, made the active one.
    pub fn new_session(&mut self, key: &str, name: Option<String>) -> (r: Session)
        requires
            old(self).well_formed(),
        ensures
            final(self).well_formed(),
            uuid_shaped(r@.id),
            valid_time(r@.created_at),
            final(self)@ == created(
                old(self)@,
                key@,
                text_opt(name),
                Seq::empty(),
                r@.id,
                r@.created_at,
            ),
            active_session(final(self)@, key@) == Some(r@),
    {
        proof {
            reveal_strlit("");
            assert(""@ =~= Seq::empty());
        }
        self.new_session_with_agent(key, name, "")
    }

    /// A new session of an agent type for a key, made the active one. It takes
    /// over the work directory of the one before.
    pub fn new_session_with_agent(
        &mut self,
        key: &str,
        name: Option<String>,
        agent_type: &str,
    ) -> (r: Session)
        requires
            old(self).well_formed(),
        ensures
            final(self).well_formed(),
            uuid_shaped(r@.id),
            valid_time(r@.created_at),
            final(self)@ == created(
                old(self)@,
                key@,
                text_opt(name),
                agent_type@,
                r@.id,
                r@.created_at,
            ),
            active_session(final(self)@, key@) == Some(r@),
    {
        self.add_session(key, name, agent_type, new_id(), now())
    }

    /// The new session with the given id and time.
    pub fn add_session(
        &mut self,
        key: &str,
        name: Option<String>,
        agent_type: &str,
        id: String,
        at: Timestamp,
    ) -> (r: Session)
        requires
            old(self).well_formed(),
            valid_time(at),
        ensures
            final(self).well_formed(),
            final(self)@ == created(old(self)@, key@, text_opt(name), agent_type@, id@, at),
            active_session(final(self)@, key@) == Some(r@),
            r@.id == id@,
            r@.created_at == at,
    {
        let work_dir: Option<String> = self.get_work_dir(key);
        let s: Session = Session::made(
            &mut self.locks,
            id.clone(),
            at,
            name,
            agent_type.to_owned(),
            work_dir,
        );
        let r: Session = s.share();
        self.sessions.insert(id.clone(), s);
        self.active_keys.insert(key.to_owned(), id.clone());
        self.session_keys.insert(id, key.to_owned());
        self.unsaved = true;
        proof {
            self.sessions.lemma_keys();
            assert(self@.sessions.dom() =~= self@.keys.dom());
        }
        r
    }

    /// The work directory of the active session of a key.
    pub fn get_work_dir(&self, key: &str) -> (r: Option<String>)
        requires
            self.well_formed(),
        ensures
            text_opt(r) == work_dir_of(self@, key@),
    {
        match self.active(key) {
            Some(s) => s.work_dir,
            None => None,
        }
    }

    /// The tmux session that a key is bound to.
    pub fn get_tmux_session(&self, key: &str) -> (r: Option<String>)
        requires
            self.well_formed(),
        ensures
            text_opt(r) == match active_session(self@, key@) {
                Some(s) => s.tmux_session,
                None => None,
            },
    {
        match self.active(key) {
            Some(s) => s.tmux_session,
            None => None,
        }
    }

    /// The agent session id of the active session of a key.
    pub fn get_agent_session_id(&self, key: &str) -> (r: Option<String>)
        requires
            self.well_formed(),
        ensures
            text_opt(r) == match active_session(self@, key@) {
                Some(s) => s.agent_session_id,
                None => None,
            },
    {
        match self.active(key) {
            Some(s) => s.agent_session_id,
            None => None,
        }
    }

    /// Puts `s`, with a lock of its own, in the place of the active session.
    fn rebuild(&mut self, key: &str, s: Session, is_busy: bool)
        requires
            old(self).well_formed(),
            active_session(old(self)@, key@) is Some,
            valid_times(s@),
        ensures
            final(self).well_formed(),
            final(self)@ == rebuilt(
                old(self)@,
                key@,
                SessionModel { lock: old(self)@.locks.len(), ..s@ },
                is_busy,
            ),
    {
        if let Some(id) = self.active_keys.get(key) {
            let id: String = id.clone();
            let mut s: Session = s;
            s.lock = self.locks.cell(is_busy);
            self.sessions.insert(id, s);
            self.unsaved = true;
            proof {
                self.sessions.lemma_keys();
                assert(self@.sessions.dom() =~= self@.keys.dom());
            }
        }
    }

    /// Sets the work directory of the active session of a key; a session is
    /// made first where there is none.
    pub fn set_work_dir(&mut self, key: &str, work_dir: &str)
        requires
            old(self).well_formed(),
        ensures
            final(self).well_formed(),
            exists|m: ManagerModel, at: Timestamp|
                ensured(old(self)@, key@, m) && valid_time(at) && final(self)@ == #[trigger] with_work_dir(
                    m,
                    key@,
                    work_dir@,
                    at,
                ),
            work_dir_of(final(self)@, key@) == Some(work_dir@),
    {
        let _: Session = self.get_or_create(key);
        self.set_work_dir_at(key, work_dir, now());
    }

    /// Sets the work directory of the active session at the given time.
    pub fn set_work_dir_at(&mut self, key: &str, work_dir: &str, at: Timestamp)
        requires
            old(self).well_formed(),
            valid_time(at),
        ensures
            final(self).well_formed(),
            final(self)@ == with_work_dir(old(self)@, key@, work_dir@, at),
    {
        if let Some(s) = self.active(key) {
            let mut s: Session = s;
            s.work_dir = Some(work_dir.to_owned());
            s.updated_at = at;
            self.rebuild(key, s, false);
        }
    }

    /// Binds a key to a tmux session; a session is made first where there is
    /// none.
    pub fn set_tmux_session(&mut self, key: &str, tmux_session: &str)
        requires
            old(self).well_formed(),
        ensures
            final(self).well_formed(),
            exists|m: ManagerModel, at: Timestamp|
                ensured(old(self)@, key@, m) && valid_time(at) && final(self)@ == #[trigger] with_tmux(
                    m,
                    key@,
                    tmux_session@,
                    at,
                ),
            active_session(final(self)@, key@) is Some,
            active_session(final(self)@, key@)->0.tmux_session == Some(tmux_session@),
    {
        let _: Session = self.get_or_create(key);
        self.set_tmux_session_at(key, tmux_session, now());
    }

    /// Binds a key to a tmux session at the given time.
    pub fn set_tmux_session_at(&mut self, key: &str, tmux_session: &str, at: Timestamp)
        requires
            old(self).well_formed(),
            valid_time(at),
        ensures
            final(self).well_formed(),
            final(self)@ == with_tmux(old(self)@, key@, tmux_session@, at),
    {
        if let Some(s) = self.active(key) {
            let mut s: Session = s;
            s.tmux_session = Some(tmux_session.to_owned());
            s.updated_at = at;
            self.rebuild(key, s, false);
        }
    }

    /// Renames the active session of a key; gives `false` where there is none.
    pub fn rename_session(&mut self, key: &str, new_name: &str) -> (r: bool)
        requires
            old(self).well_formed(),
        ensures
            final(self).well_formed(),
            r == (active_session(old(self)@, key@) is Some),
            final(self)@ == renamed(old(self)@, key@, new_name@),
    {
        if let Some(s) = self.active(key) {
            let was_busy: bool = s.is_busy(&self.locks);
            let mut s: Session = s;
            s.name = Some(new_name.to_owned());
            self.rebuild(key, s, was_busy);
            return true;
        }
        false
    }

    /// Sets the agent session id of the active session of a key; an empty one
    /// means that there is nothing to resume.
    pub fn set_agent_session_id(&mut self, key: &str, agent_sid: &str)
        requires
            old(self).well_formed(),
        ensures
            final(self).well_formed(),
            exists|at: Timestamp|
                valid_time(at) && final(self)@ == #[trigger] with_agent_session(
                    old(self)@,
                    key@,
                    agent_sid@,
                    at,
                ),
    {
        self.set_agent_session_id_at(key, agent_sid, now());
    }

    /// Sets the agent session id at the given time.
    pub fn set_agent_session_id_at(&mut self, key: &str, agent_sid: &str, at: Timestamp)
        requires
            old(self).well_formed(),
            valid_time(at),
        ensures
            final(self).well_formed(),
            final(self)@ == with_agent_session(old(self)@, key@, agent_sid@, at),
    {
        if let Some(s) = self.active(key) {
            let mut s: Session = s;
            s.agent_session_id = if agent_sid.is_empty() {
                None
            } else {
                Some(agent_sid.to_owned())
            };
            s.updated_at = at;
            self.rebuild(key, s, false);
        }
    }

    /// Makes a session the active one of a key; gives nothing where there is
    /// no such session or it belongs to another key.
    pub fn switch_session(&mut self, key: &str, session_id: &str) -> (r: Option<Session>)
        requires
            old(self).well_formed(),
        ensures
            final(self).well_formed(),
            r is Some <==> switchable(old(self)@, key@, session_id@),
            r is Some ==> r->0@ == old(self)@.sessions[session_id@],
            final(self)@ == switched(old(self)@, key@, session_id@),
    {
        let found: Option<Session> = match self.sessions.get(session_id) {
            Some(s) => Some(s.share()),
            None => None,
        };
        let owned: bool = match self.session_keys.get(session_id) {
            Some(k) => same(k.as_str(), key),
            None => false,
        };
        match found {
            Some(s) => if owned {
                self.active_keys.insert(key.to_owned(), session_id.to_owned());
                self.unsaved = true;
                Some(s)
            } else {
                None
            },
            None => None,
        }
    }

    /// Deletes a session. Where it was the active one of the key, none is
    /// afterwards.
    pub fn delete_session(&mut self, key: &str, session_id: &str)
        requires
            old(self).well_formed(),
        ensures
            final(self).well_formed(),
            final(self)@ == deleted(old(self)@, key@, session_id@),
    {
        let was_active: bool = match self.active_keys.get(key) {
            Some(id) => same(id.as_str(), session_id),
            None => false,
        };
        let _: Option<Session> = self.sessions.remove(session_id);
        if was_active {
            let _: Option<String> = self.active_keys.remove(key);
        }
        let _: Option<String> = self.session_keys.remove(session_id);
        self.unsaved = true;
        proof {
            self.sessions.lemma_keys();
            assert(self@.sessions.dom() =~= self@.keys.dom());
        }
    }

    /// The key of a session, as the saved state names it.
    fn key_of<'a>(&'a self, id: &str) -> (r: &'a str)
        requires
            self.well_formed(),
        ensures
            r@ == saved_key(self@, id@),
    {
        match self.session_keys.get(id) {
            Some(k) => k.as_str(),
            None => {
                proof {
                    reveal_strlit("");
                    assert(""@ =~= Seq::empty());
                }
                ""
            },
        }
    }

    /// Whether a session is listed for a key, and for an agent type where one
    /// is given.
    fn is_listed(&self, s: &Session, key: &str, agent_type: Option<&str>) -> (r: bool)
        requires
            self.well_formed(),
        ensures
            r == listed(self@, s@, key@, str_opt(agent_type)),
    {
        let owned: bool = match self.session_keys.get(s.id.as_str()) {
            Some(k) => same(k.as_str(), key),
            None => false,
        };
        owned && match agent_type {
            Some(t) => same(s.effective_agent_type(self.default_type.as_str()), t),
            None => true,
        }
    }

    fn list_matching(&self, key: &str, agent_type: Option<&str>) -> (r: Vec<Session>)
        requires
            self.well_formed(),
        ensures
            models(r@) == listing(self@, key@, str_opt(agent_type)),
            newest_first(models(r@)),
            is_listing(self@, key@, str_opt(agent_type), models(r@)),
    {
        let mut r: Vec<Session> = Vec::new();
        let n: usize = self.sessions.len();
        let ghost m = self@;
        let ghost kind = str_opt(agent_type);
        let mut i: usize = 0;
        assert(models(r@) =~= Seq::empty());
        while i < n
            invariant
                i <= n,
                self.well_formed(),
                m == self@,
                m.order == self.sessions.keys(),
                kind == str_opt(agent_type),
                n == m.order.len(),
                models(r@) == listing_of(m, key@, kind, i as int),
            decreases n - i,
        {
            let (_, s): (&str, &Session) = self.sessions.entry(i);
            if self.is_listed(s, key, agent_type) {
                let p: usize = place_by_age(&r, s);
                let copy: Session = s.share();
                proof {
                    lemma_age_place(models(r@), s@);
                    lemma_models_insert(r@, p as int, copy);
                }
                r.insert(p, copy);
            }
            i += 1;
        }
        proof {
            law_listing_holds_the_sessions(m, key@, kind);
        }
        r
    }

    /// The sessions of a key, the most recently updated first.
    pub fn list(&self, key: &str) -> (r: Vec<Session>)
        requires
            self.well_formed(),
        ensures
            models(r@) == listing(self@, key@, None),
            newest_first(models(r@)),
            is_listing(self@, key@, None, models(r@)),
    {
        self.list_matching(key, None)
    }

    /// The sessions of a key and an agent type, the most recently updated
    /// first.
    pub fn list_for_agent(&self, key: &str, agent_type: &str) -> (r: Vec<Session>)
        requires
            self.well_formed(),
        ensures
            models(r@) == listing(self@, key@, Some(agent_type@)),
            newest_first(models(r@)),
            is_listing(self@, key@, Some(agent_type@), models(r@)),
    {
        self.list_matching(key, Some(agent_type))
    }

    /// Every session with its key.
    pub fn list_all(&self) -> (r: Vec<(String, Session)>)
        requires
            self.well_formed(),
        ensures
            is_full_listing(self@, pairs(r@)),
    {
        let mut r: Vec<(String, Session)> = Vec::new();
        let n: usize = self.sessions.len();
        let ghost all = self.sessions.keys();
        let mut i: usize = 0;
        while i < n
            invariant
                i <= n,
                self.well_formed(),
                all == self.sessions.keys(),
                n == all.len(),
                all.no_duplicates(),
                forall|k: Seq<char>| self@.sessions.contains_key(k) <==> #[trigger] all.contains(k),
                r@.len() == i,
                forall|j: int|
                    0 <= j < i ==> #[trigger] pairs(r@)[j] == (
                        self@.keys[all[j]],
                        self@.sessions[all[j]],
                    ),
            decreases n - i,
        {
            let (id, s): (&str, &Session) = self.sessions.entry(i);
            assert(all.contains(all[i as int]));
            assert(self@.sessions.dom().contains(id@));
            assert(self@.keys.contains_key(id@));
            let k: &str = self.key_of(id);
            let pair: (String, Session) = (k.to_owned(), s.share());
            proof {
                assert(pairs(r@.push(pair)) =~= pairs(r@).push((pair.0@, pair.1@)));
                assert forall|j: int| 0 <= j < i + 1 implies #[trigger] pairs(r@.push(pair))[j] == (
                    self@.keys[all[j]],
                    self@.sessions[all[j]],
                ) by {
                    if j < i {
                        assert(pairs(r@)[j] == (self@.keys[all[j]], self@.sessions[all[j]]));
                    }
                }
            }
            r.push(pair);
            i += 1;
        }
        proof {
            assert(pairs(r@).len() == all.len());
            assert(lists_all(self@, pairs(r@), all));
        }
        r
    }

    /// Every key with its active session.
    pub fn active_sessions(&self) -> (r: Vec<(String, Session)>)
        requires
            self.well_formed(),
        ensures
            is_active_listing(self@, pairs(r@)),
    {
        let mut r: Vec<(String, Session)> = Vec::new();
        let n: usize = self.active_keys.len();
        let ghost all = self.active_keys.keys();
        let mut i: usize = 0;
        while i < n
            invariant
                i <= n,
                self.well_formed(),
                all == self.active_keys.keys(),
                n == all.len(),
                all.no_duplicates(),
                forall|j: int|
                    0 <= j < r@.len() ==> active_session(self@, #[trigger] pairs(r@)[j].0) == Some(
                        pairs(r@)[j].1,
                    ),
                forall|a: int, b: int|
                    0 <= a < b < r@.len() ==> #[trigger] pairs(r@)[a].0 != #[trigger] pairs(r@)[b].0,
                forall|j: int|
                    0 <= j < r@.len() ==> all.take(i as int).contains(#[trigger] pairs(r@)[j].0),
                forall|j: int|
                    0 <= j < i && active_session(self@, #[trigger] all[j]) is Some ==> holds_key(
                        pairs(r@),
                        all[j],
                    ),
            decreases n - i,
        {
            let (key, id): (&str, &String) = self.active_keys.entry(i);
            let ghost before = pairs(r@);
            assert(key@ == all[i as int]);
            assert(!all.take(i as int).contains(key@)) by {
                if all.take(i as int).contains(key@) {
                    let k = choose|k: int| 0 <= k < i && all.take(i as int)[k] == key@;
                    assert(all[k] == all[i as int]);
                }
            }
            assert forall|x: Seq<char>| all.take(i as int).contains(x) implies all.take(
                i + 1,
            ).contains(x) by {
                let k = choose|k: int| 0 <= k < i && all.take(i as int)[k] == x;
                assert(all.take(i + 1)[k] == x);
            }
            assert(all.take(i + 1)[i as int] == key@);
            if let Some(s) = self.sessions.get(id.as_str()) {
                let pair: (String, Session) = (key.to_owned(), s.share());
                proof {
                    let after = before.push((pair.0@, pair.1@));
                    assert(pairs(r@.push(pair)) =~= after);
                    assert forall|j: int| 0 <= j < after.len() implies active_session(
                        self@,
                        #[trigger] after[j].0,
                    ) == Some(after[j].1) by {
                        if j < before.len() {
                            assert(after[j] == before[j]);
                        }
                    }
                    assert forall|j: int| 0 <= j < after.len() implies all.take(i + 1).contains(
                        #[trigger] after[j].0,
                    ) by {
                        if j < before.len() {
                            assert(after[j] == before[j]);
                            assert(all.take(i as int).contains(before[j].0));
                        }
                    }
                    assert forall|a: int, b: int| 0 <= a < b < after.len() implies #[trigger]
                    after[a].0 != #[trigger] after[b].0 by {
                        assert(after[a] == before[a]);
                        if b < before.len() {
                            assert(after[b] == before[b]);
                        } else {
                            assert(all.take(i as int).contains(before[a].0));
                        }
                    }
                    assert forall|j: int|
                        0 <= j < i + 1 && active_session(
                            self@,
                            #[trigger] all[j],
                        ) is Some implies holds_key(after, all[j]) by {
                        if j < i {
                            let k = choose|k: int|
                                0 <= k < before.len() && #[trigger] before[k].0 == all[j];
                            assert(after[k].0 == all[j]);
                        } else {
                            assert(after[before.len() as int].0 == all[j]);
                        }
                    }
                }
                r.push(pair);
            } else {
                proof {
                    assert forall|j: int| 0 <= j < before.len() implies all.take(i + 1).contains(
                        #[trigger] before[j].0,
                    ) by {
                        assert(all.take(i as int).contains(before[j].0));
                    }
                }
            }
            i += 1;
        }
        proof {
            let m = self@;
            assert forall|k: Seq<char>| #[trigger] active_session(m, k) is Some implies holds_key(
                pairs(r@),
                k,
            ) by {
                assert(self.active_keys@.contains_key(k));
                assert(all.contains(k));
                let j = choose|j: int| 0 <= j < all.len() && all[j] == k;
                assert(active_session(m, all[j]) is Some);
            }
        }
        r
    }

    /// The state to save. The marker for the most recent agent session is
    /// never part of it: on disk it would make the agent fork some session of
    /// the command line on every start.
    pub fn persist(&self) -> (r: PersistedState)
        requires
            self.well_formed(),
        ensures
            r.sessions.well_formed(),
            r.active_keys.well_formed(),
            r.sessions@ == saved_sessions(self@),
            r.active_keys@ == self@.active,
            r.sessions.keys() == self@.order,
    {
        let mut sessions: Table<SessionData> = Table::new();
        let n: usize = self.sessions.len();
        let ghost all = self.sessions.keys();
        let mut i: usize = 0;
        assert(all.take(0) =~= Seq::empty());
        while i < n
            invariant
                i <= n,
                self.well_formed(),
                all == self.sessions.keys(),
                all == self@.order,
                all.no_duplicates(),
                sessions.keys() == all.take(i as int),
                n == all.len(),
                forall|k: Seq<char>| self@.sessions.contains_key(k) <==> #[trigger] all.contains(k),
                sessions.well_formed(),
                forall|k: Seq<char>| #[trigger]
                    sessions@.contains_key(k) <==> all.take(i as int).contains(k),
                forall|k: Seq<char>| #[trigger]
                    sessions@.contains_key(k) ==> sessions@[k] == data_of(
                        self@.sessions[k],
                        saved_key(self@, k),
                    ),
            decreases n - i,
        {
            let (id, s): (&str, &Session) = self.sessions.entry(i);
            let data: SessionData = SessionData::from_session(s, self.key_of(id));
            proof {
                lemma_take_contains(all, i as int);
                assert(!all.take(i as int).contains(id@)) by {
                    if all.take(i as int).contains(id@) {
                        let k = choose|k: int| 0 <= k < i && all.take(i as int)[k] == id@;
                        assert(all[k] == all[i as int]);
                    }
                }
                assert(all.take(i as int).push(id@) =~= all.take(i + 1));
            }
            sessions.insert(id.to_owned(), data);
            i += 1;
        }
        proof {
            assert(all.take(n as int) =~= all);
            assert(sessions@ =~= saved_sessions(self@));
        }
        let active_keys: Table<String> = copy_texts(&self.active_keys);
        PersistedState { sessions, active_keys }
    }

    /// Takes over a saved state: every session with a free lock of its own, and
    /// without the marker for the most recent agent session.
    pub fn load_state(&mut self, state: PersistedState)
        requires
            old(self).well_formed(),
            state.sessions.well_formed(),
            state.active_keys.well_formed(),
            forall|id: Seq<char>| #[trigger]
                state.sessions@.contains_key(id) ==> valid_time(state.sessions@[id].created_at)
                    && valid_time(state.sessions@[id].updated_at),
        ensures
            final(self).well_formed(),
            is_loaded(final(self)@, state.sessions@, state.active_keys@, old(self)@.locks),
            final(self)@.order == state.sessions.keys(),
            final(self)@.unsaved == old(self)@.unsaved,
            final(self)@.default_type == old(self)@.default_type,
    {
        let mut sessions: Table<Session> = Table::new();
        let mut keys: Table<String> = Table::new();
        let n: usize = state.sessions.len();
        let ghost all = state.sessions.keys();
        let ghost saved = state.sessions@;
        let ghost base = self@.locks;
        let mut i: usize = 0;
        assert(all.take(0) =~= Seq::empty());
        assert(self@.locks =~= base + Seq::new(0, |k: int| false));
        while i < n
            invariant
                i <= n,
                all == state.sessions.keys(),
                n == all.len(),
                all.no_duplicates(),
                saved == state.sessions@,
                sessions.keys() == all.take(i as int),
                forall|k: Seq<char>| saved.contains_key(k) <==> #[trigger] all.contains(k),
                state.sessions.well_formed(),
                self.active_keys == old(self).active_keys,
                self.unsaved == old(self).unsaved,
                self.default_type == old(self).default_type,
                self.locks@ == base + Seq::new(i as nat, |k: int| false),
                sessions.well_formed(),
                keys.well_formed(),
                forall|k: Seq<char>| #[trigger]
                    sessions@.contains_key(k) <==> all.take(i as int).contains(k),
                forall|k: Seq<char>| #[trigger]
                    keys@.contains_key(k) <==> all.take(i as int).contains(k),
                forall|j: int|
                    0 <= j < i ==> sessions@[#[trigger] all[j]] == session_of(
                        saved[all[j]],
                        base.len() + j as nat,
                    ) && keys@[all[j]] == saved[all[j]].key,
            decreases n - i,
        {
            let (id, data): (&str, &SessionData) = state.sessions.entry(i);
            let key: String = data.key.clone();
            let s: Session = data.copy().into_session(&mut self.locks);
            proof {
                lemma_take_contains(all, i as int);
                assert(!all.take(i as int).contains(id@)) by {
                    if all.take(i as int).contains(id@) {
                        let k = choose|k: int| 0 <= k < i && all.take(i as int)[k] == id@;
                        assert(all[k] == all[i as int]);
                    }
                }
                assert(all.take(i as int).push(id@) =~= all.take(i + 1));
                assert(base + Seq::new((i + 1) as nat, |k: int| false) =~= (base + Seq::new(
                    i as nat,
                    |k: int| false,
                )).push(false));
                assert forall|j: int| 0 <= j < i implies #[trigger] all[j] != id@ by {
                    assert(all[i as int] == id@);
                }
            }
            sessions.insert(id.to_owned(), s);
            keys.insert(id.to_owned(), key);
            i += 1;
        }
        let ghost locks = self@.locks;
        self.sessions = sessions;
        self.session_keys = keys;
        self.active_keys = state.active_keys;
        proof {
            assert(all.take(n as int) =~= all);
            self.sessions.lemma_keys();
            let m = self@;
            assert(m.sessions.dom() =~= m.keys.dom());
            assert(m.sessions.dom() =~= saved.dom());
            assert forall|id: Seq<char>| #[trigger] m.sessions.contains_key(id) implies ({
                let lock = m.sessions[id].lock;
                &&& m.sessions[id] == session_of(saved[id], lock)
                &&& m.keys[id] == saved[id].key
                &&& base.len() <= lock < m.locks.len()
                &&& !m.locks[lock as int]
            }) by {
                assert(all.contains(id));
                let j = choose|j: int| 0 <= j < all.len() && all[j] == id;
                assert(m.sessions[all[j]] == session_of(saved[all[j]], base.len() + j as nat));
            }
            assert forall|a: Seq<char>, b: Seq<char>|
                m.sessions.contains_key(a) && m.sessions.contains_key(b) && a != b implies (
            #[trigger] m.sessions[a]).lock != (#[trigger] m.sessions[b]).lock by {
                assert(all.contains(a) && all.contains(b));
                let i = choose|i: int| 0 <= i < all.len() && all[i] == a;
                let j = choose|j: int| 0 <= j < all.len() && all[j] == b;
                assert(m.sessions[all[i]] == session_of(saved[all[i]], base.len() + i as nat));
                assert(m.sessions[all[j]] == session_of(saved[all[j]], base.len() + j as nat));
            }
            assert(base.is_prefix_of(m.locks)) by {
                assert(base =~= m.locks.subrange(0, base.len() as int));
            }
        }
    }
}

/// The contents of each session in a list.
pub open spec fn models(v: Seq<Session>) -> Seq<SessionModel> {
    v.map_values(|s: Session| s@)
}

/// The contents of each pair of a key and a session in a list.
pub open spec fn pairs(v: Seq<(String, Session)>) -> Seq<(Seq<char>, SessionModel)> {
    v.map_values(|p: (String, Session)| (p.0@, p.1@))
}

/// Whether no session is older than one behind it.
pub open spec fn newest_first(v: Seq<SessionModel>) -> bool {
    forall|i: int, j: int|
        0 <= i < j < v.len() ==> !earlier(
            (#[trigger] v[i]).updated_at,
            (#[trigger] v[j]).updated_at,
        )
}

/// The key that a session is saved under.
pub open spec fn saved_key(m: ManagerModel, id: Seq<char>) -> Seq<char> {
    if m.keys.contains_key(id) {
        m.keys[id]
    } else {
        Seq::empty()
    }
}

/// Whether a session belongs to a key, and to an agent type where one is
/// given.
pub open spec fn listed(
    m: ManagerModel,
    s: SessionModel,
    key: Seq<char>,
    agent_type: Option<Seq<char>>,
) -> bool {
    &&& m.keys.contains_key(s.id) && m.keys[s.id] == key
    &&& agent_type is Some ==> agent_type_of(s, m.default_type) == agent_type->0
}

/// Whether `v` holds, for the ids `ids`, exactly the sessions that belong to
/// the key and the agent type.
pub open spec fn lists(
    m: ManagerModel,
    key: Seq<char>,
    agent_type: Option<Seq<char>>,
    v: Seq<SessionModel>,
    ids: Seq<Seq<char>>,
) -> bool {
    &&& ids.len() == v.len()
    &&& ids.no_duplicates()
    &&& forall|j: int|
        0 <= j < v.len() ==> m.sessions.contains_key(#[trigger] ids[j]) && m.sessions[ids[j]]
            == v[j] && listed(m, v[j], key, agent_type)
    &&& forall|id: Seq<char>| #[trigger]
        m.sessions.contains_key(id) && listed(m, m.sessions[id], key, agent_type) ==> ids.contains(
            id,
        )
}

/// Whether `v` holds, for the ids `ids`, exactly those of the first `i` sessions
/// that belong to the key and the agent type.
spec fn lists_first(
    m: ManagerModel,
    key: Seq<char>,
    agent_type: Option<Seq<char>>,
    v: Seq<SessionModel>,
    ids: Seq<Seq<char>>,
    all: Seq<Seq<char>>,
    i: int,
) -> bool {
    &&& ids.len() == v.len()
    &&& ids.no_duplicates()
    &&& forall|j: int| 0 <= j < ids.len() ==> all.take(i).contains(#[trigger] ids[j])
    &&& forall|j: int|
        0 <= j < v.len() ==> m.sessions.contains_key(#[trigger] ids[j]) && m.sessions[ids[j]]
            == v[j] && listed(m, v[j], key, agent_type)
    &&& forall|j: int|
        0 <= j < i && listed(m, m.sessions[#[trigger] all[j]], key, agent_type) ==> ids.contains(
            all[j],
        )
}

proof fn lemma_lists_no_more(
    m: ManagerModel,
    key: Seq<char>,
    agent_type: Option<Seq<char>>,
    v: Seq<SessionModel>,
    ids: Seq<Seq<char>>,
    all: Seq<Seq<char>>,
    i: int,
)
    requires
        lists_first(m, key, agent_type, v, ids, all, i),
        0 <= i < all.len(),
        !listed(m, m.sessions[all[i]], key, agent_type),
    ensures
        lists_first(m, key, agent_type, v, ids, all, i + 1),
{
    lemma_take_contains(all, i);
    assert forall|j: int| 0 <= j < ids.len() implies all.take(i + 1).contains(
        #[trigger] ids[j],
    ) by {
        assert(all.take(i).contains(ids[j]));
    }
}

proof fn lemma_lists_one_more(
    m: ManagerModel,
    key: Seq<char>,
    agent_type: Option<Seq<char>>,
    v: Seq<SessionModel>,
    ids: Seq<Seq<char>>,
    all: Seq<Seq<char>>,
    i: int,
    p: int,
)
    requires
        lists_first(m, key, agent_type, v, ids, all, i),
        0 <= i < all.len(),
        0 <= p <= v.len(),
        all.no_duplicates(),
        m.sessions.contains_key(all[i]),
        listed(m, m.sessions[all[i]], key, agent_type),
    ensures
        lists_first(
            m,
            key,
            agent_type,
            v.insert(p, m.sessions[all[i]]),
            ids.insert(p, all[i]),
            all,
            i + 1,
        ),
{
    let s = m.sessions[all[i]];
    let w = v.insert(p, s);
    let jds = ids.insert(p, all[i]);
    lemma_take_contains(all, i);
    assert(!all.take(i).contains(all[i])) by {
        if all.take(i).contains(all[i]) {
            let k = choose|k: int| 0 <= k < i && all.take(i)[k] == all[i];
            assert(all[k] == all[i]);
        }
    }
    assert forall|a: int| 0 <= a < jds.len() && a != p implies jds[a] == ids[if a < p {
        a
    } else {
        a - 1
    }] && w[a] == v[if a < p {
        a
    } else {
        a - 1
    }] by {}
    assert(jds[p] == all[i] && w[p] == s);
    assert forall|a: int, b: int|
        0 <= a < jds.len() && 0 <= b < jds.len() && a != b implies jds[a] != jds[b] by {
        let a0 = if a < p { a } else { a - 1 };
        let b0 = if b < p { b } else { b - 1 };
        if a == p {
            assert(all.take(i).contains(ids[b0]));
        } else if b == p {
            assert(all.take(i).contains(ids[a0]));
        } else {
            assert(ids[a0] != ids[b0]);
        }
    }
    assert forall|j: int| 0 <= j < jds.len() implies all.take(i + 1).contains(
        #[trigger] jds[j],
    ) by {
        if j != p {
            assert(all.take(i).contains(ids[if j < p { j } else { j - 1 }]));
        }
    }
    assert forall|j: int| 0 <= j < w.len() implies m.sessions.contains_key(#[trigger] jds[j])
        && m.sessions[jds[j]] == w[j] && listed(m, w[j], key, agent_type) by {
        if j != p {
            assert(m.sessions.contains_key(ids[if j < p { j } else { j - 1 }]));
        }
    }
    assert forall|j: int|
        0 <= j < i + 1 && listed(m, m.sessions[#[trigger] all[j]], key, agent_type) implies jds.contains(
        all[j],
    ) by {
        if j < i {
            assert(ids.contains(all[j]));
            let k = choose|k: int| 0 <= k < ids.len() && ids[k] == all[j];
            assert(jds[if k < p { k } else { k + 1 }] == all[j]);
        } else {
            assert(jds[p] == all[j]);
        }
    }
}

proof fn lemma_models_insert(v: Seq<Session>, p: int, s: Session)
    requires
        0 <= p <= v.len(),
    ensures
        models(v.insert(p, s)) == models(v).insert(p, s@),
{
    assert(models(v.insert(p, s)) =~= models(v).insert(p, s@));
}

/// The place of a session among others, the most recently updated first: behind
/// all that are not older.
pub open spec fn age_place(v: Seq<SessionModel>, s: SessionModel) -> int
    decreases v.len(),
{
    if v.len() == 0 || earlier(v[0].updated_at, s.updated_at) {
        0
    } else {
        1 + age_place(v.skip(1), s)
    }
}

/// The first `n` sessions, as far as they belong to the key and the agent type,
/// the most recently updated first; of those updated at the same time, the one
/// that came in first.
pub open spec fn listing_of(
    m: ManagerModel,
    key: Seq<char>,
    agent_type: Option<Seq<char>>,
    n: int,
) -> Seq<SessionModel>
    decreases n,
{
    if n <= 0 {
        Seq::empty()
    } else {
        let v = listing_of(m, key, agent_type, n - 1);
        let s = m.sessions[m.order[n - 1]];
        if listed(m, s, key, agent_type) {
            v.insert(age_place(v, s), s)
        } else {
            v
        }
    }
}

/// The sessions of a key, and of an agent type where one is given, in the order
/// in which they are listed.
pub open spec fn listing(m: ManagerModel, key: Seq<char>, agent_type: Option<Seq<char>>) -> Seq<
    SessionModel,
> {
    listing_of(m, key, agent_type, m.order.len() as int)
}

proof fn lemma_age_place(v: Seq<SessionModel>, s: SessionModel)
    ensures
        0 <= age_place(v, s) <= v.len(),
        forall|j: int|
            0 <= j < age_place(v, s) ==> !earlier((#[trigger] v[j]).updated_at, s.updated_at),
        age_place(v, s) < v.len() ==> earlier(v[age_place(v, s)].updated_at, s.updated_at),
    decreases v.len(),
{
    if v.len() > 0 && !earlier(v[0].updated_at, s.updated_at) {
        let t = v.skip(1);
        lemma_age_place(t, s);
        assert forall|j: int| 0 <= j < age_place(v, s) implies !earlier(
            (#[trigger] v[j]).updated_at,
            s.updated_at,
        ) by {
            if j > 0 {
                assert(v[j] == t[j - 1]);
            }
        }
    }
}

proof fn lemma_age_place_is(v: Seq<SessionModel>, s: SessionModel, p: int)
    requires
        0 <= p <= v.len(),
        forall|j: int| 0 <= j < p ==> !earlier((#[trigger] v[j]).updated_at, s.updated_at),
        p < v.len() ==> earlier(v[p].updated_at, s.updated_at),
    ensures
        age_place(v, s) == p,
    decreases p,
{
    if p > 0 {
        assert(!earlier(v[0].updated_at, s.updated_at));
        let t = v.skip(1);
        assert forall|j: int| 0 <= j < p - 1 implies !earlier(
            (#[trigger] t[j]).updated_at,
            s.updated_at,
        ) by {
            assert(t[j] == v[j + 1]);
        }
        lemma_age_place_is(t, s, p - 1);
    }
}

fn place_by_age(r: &Vec<Session>, s: &Session) -> (p: usize)
    ensures
        p == age_place(models(r@), s@),
{
    let mut p: usize = 0;
    while p < r.len() && !is_earlier(r[p].updated_at, s.updated_at)
        invariant
            p <= r.len(),
            forall|j: int|
                0 <= j < p ==> !earlier((#[trigger] models(r@)[j]).updated_at, s@.updated_at),
        decreases r.len() - p,
    {
        assert(models(r@)[p as int] == r@[p as int]@);
        p += 1;
    }
    proof {
        if p < r.len() {
            assert(models(r@)[p as int] == r@[p as int]@);
        }
        lemma_age_place_is(models(r@), s@, p as int);
    }
    p
}

/// The ids of the sessions that a listing holds, in its order.
spec fn listing_ids(
    m: ManagerModel,
    key: Seq<char>,
    agent_type: Option<Seq<char>>,
    n: int,
) -> Seq<Seq<char>>
    decreases n,
{
    if n <= 0 {
        Seq::empty()
    } else {
        let v = listing_of(m, key, agent_type, n - 1);
        let ids = listing_ids(m, key, agent_type, n - 1);
        let s = m.sessions[m.order[n - 1]];
        if listed(m, s, key, agent_type) {
            ids.insert(age_place(v, s), m.order[n - 1])
        } else {
            ids
        }
    }
}

proof fn lemma_listing_of(m: ManagerModel, key: Seq<char>, agent_type: Option<Seq<char>>, n: int)
    requires
        consistent(m),
        0 <= n <= m.order.len(),
    ensures
        newest_first(listing_of(m, key, agent_type, n)),
        lists_first(
            m,
            key,
            agent_type,
            listing_of(m, key, agent_type, n),
            listing_ids(m, key, agent_type, n),
            m.order,
            n,
        ),
    decreases n,
{
    if n > 0 {
        lemma_listing_of(m, key, agent_type, n - 1);
        let v = listing_of(m, key, agent_type, n - 1);
        let ids = listing_ids(m, key, agent_type, n - 1);
        let id = m.order[n - 1];
        let s = m.sessions[id];
        assert(m.order.contains(id));
        if listed(m, s, key, agent_type) {
            lemma_age_place(v, s);
            let p = age_place(v, s);
            lemma_lists_one_more(m, key, agent_type, v, ids, m.order, n - 1, p);
            lemma_insert_newest_first(v, s, p);
        } else {
            lemma_lists_no_more(m, key, agent_type, v, ids, m.order, n - 1);
        }
    }
}

/// A listing holds exactly the sessions of the key and the agent type, each
/// once, the most recently updated first.
pub proof fn law_listing_holds_the_sessions(
    m: ManagerModel,
    key: Seq<char>,
    agent_type: Option<Seq<char>>,
)
    requires
        consistent(m),
    ensures
        newest_first(listing(m, key, agent_type)),
        is_listing(m, key, agent_type, listing(m, key, agent_type)),
{
    let n = m.order.len() as int;
    let ids = listing_ids(m, key, agent_type, n);
    lemma_listing_of(m, key, agent_type, n);
    assert forall|id: Seq<char>| #[trigger]
        m.sessions.contains_key(id) && listed(
            m,
            m.sessions[id],
            key,
            agent_type,
        ) implies ids.contains(id) by {
        assert(m.order.contains(id));
        let k = choose|k: int| 0 <= k < n && m.order[k] == id;
        assert(listed(m, m.sessions[m.order[k]], key, agent_type));
    }
    assert(lists(m, key, agent_type, listing(m, key, agent_type), ids));
}

/// Whether `v` holds exactly the sessions that belong to the key and the agent
/// type, each once.
pub open spec fn is_listing(
    m: ManagerModel,
    key: Seq<char>,
    agent_type: Option<Seq<char>>,
    v: Seq<SessionModel>,
) -> bool {
    exists|ids: Seq<Seq<char>>| #[trigger] lists(m, key, agent_type, v, ids)
}

/// Whether `v` holds, for the ids `ids`, every session with its key.
pub open spec fn lists_all(
    m: ManagerModel,
    v: Seq<(Seq<char>, SessionModel)>,
    ids: Seq<Seq<char>>,
) -> bool {
    &&& ids.len() == v.len()
    &&& ids.no_duplicates()
    &&& forall|id: Seq<char>| m.sessions.contains_key(id) <==> #[trigger] ids.contains(id)
    &&& forall|j: int|
        0 <= j < v.len() ==> #[trigger] v[j] == (m.keys[ids[j]], m.sessions[ids[j]])
}

/// Whether `v` holds every session with its key, each once.
pub open spec fn is_full_listing(m: ManagerModel, v: Seq<(Seq<char>, SessionModel)>) -> bool {
    exists|ids: Seq<Seq<char>>| #[trigger] lists_all(m, v, ids)
}

/// Whether a key stands in a list.
pub open spec fn holds_key(v: Seq<(Seq<char>, SessionModel)>, key: Seq<char>) -> bool {
    exists|k: int| 0 <= k < v.len() && #[trigger] v[k].0 == key
}

/// Whether `v` holds every key that has an active session, each once, with
/// that session.
pub open spec fn is_active_listing(m: ManagerModel, v: Seq<(Seq<char>, SessionModel)>) -> bool {
    &&& forall|j: int| 0 <= j < v.len() ==> active_session(m, #[trigger] v[j].0) == Some(v[j].1)
    &&& forall|a: int, b: int| 0 <= a < b < v.len() ==> #[trigger] v[a].0 != #[trigger] v[b].0
    &&& forall|k: Seq<char>| #[trigger] active_session(m, k) is Some ==> holds_key(v, k)
}

proof fn lemma_insert_newest_first(v: Seq<SessionModel>, s: SessionModel, p: int)
    requires
        newest_first(v),
        0 <= p <= v.len(),
        forall|j: int| 0 <= j < p ==> !earlier((#[trigger] v[j]).updated_at, s.updated_at),
        p < v.len() ==> earlier(v[p].updated_at, s.updated_at),
    ensures
        newest_first(v.insert(p, s)),
{
    let w = v.insert(p, s);
    assert forall|i: int, j: int| 0 <= i < j < w.len() implies !earlier(
        (#[trigger] w[i]).updated_at,
        (#[trigger] w[j]).updated_at,
    ) by {
        let i0 = if i < p { i } else { i - 1 };
        let j0 = if j < p { j } else { j - 1 };
        if i != p {
            assert(w[i] == v[i0]);
        }
        if j != p {
            assert(w[j] == v[j0]);
        }
        if i == p && j > p {
            if j0 > p {
                assert(!earlier(v[p].updated_at, v[j0].updated_at));
            }
        }
    }
}


/// The sessions as they are saved.
pub open spec fn saved_sessions(m: ManagerModel) -> Map<Seq<char>, DataModel> {
    Map::new(
        |id: Seq<char>| m.sessions.contains_key(id),
        |id: Seq<char>| data_of(m.sessions[id], saved_key(m, id)),
    )
}

/// Whether a manager holds exactly a saved state: each session under its key,
/// with a free lock that is neither one of the locks before nor shared.
pub open spec fn is_loaded(
    m: ManagerModel,
    saved: Map<Seq<char>, DataModel>,
    active: Map<Seq<char>, Seq<char>>,
    locks: Seq<bool>,
) -> bool {
    &&& m.active == active
    &&& m.sessions.dom() == saved.dom()
    &&& m.keys.dom() == saved.dom()
    &&& locks.is_prefix_of(m.locks)
    &&& forall|id: Seq<char>| #[trigger]
        m.sessions.contains_key(id) ==> ({
            let lock = m.sessions[id].lock;
            &&& m.sessions[id] == session_of(saved[id], lock)
            &&& m.keys[id] == saved[id].key
            &&& locks.len() <= lock < m.locks.len()
            &&& !m.locks[lock as int]
        })
    &&& forall|a: Seq<char>, b: Seq<char>|
        m.sessions.contains_key(a) && m.sessions.contains_key(b) && a != b ==> (
        #[trigger] m.sessions[a]).lock != (#[trigger] m.sessions[b]).lock
}

proof fn lemma_take_contains(all: Seq<Seq<char>>, i: int)
    requires
        0 <= i < all.len(),
    ensures
        forall|k: Seq<char>| #[trigger]
            all.take(i + 1).contains(k) <==> (all.take(i).contains(k) || k == all[i]),
{
    let a = all.take(i);
    let b = all.take(i + 1);
    assert forall|k: Seq<char>| #[trigger] b.contains(k) <==> (a.contains(k) || k == all[i]) by {
        if b.contains(k) {
            let j = choose|j: int| 0 <= j < b.len() && b[j] == k;
            if j < i {
                assert(a[j] == k);
            }
        }
        if a.contains(k) {
            let j = choose|j: int| 0 <= j < a.len() && a[j] == k;
            assert(b[j] == k);
        }
        assert(b[i] == all[i]);
    }
}

fn copy_texts(t: &Table<String>) -> (r: Table<String>)
    requires
        t.well_formed(),
    ensures
        r.well_formed(),
        r@ == t@,
{
    let mut r: Table<String> = Table::new();
    let n: usize = t.len();
    let ghost all = t.keys();
    let mut i: usize = 0;
    while i < n
        invariant
            i <= n,
            t.well_formed(),
            all == t.keys(),
            n == all.len(),
            forall|k: Seq<char>| t@.contains_key(k) <==> #[trigger] all.contains(k),
            r.well_formed(),
            forall|k: Seq<char>| #[trigger]
                r@.contains_key(k) <==> all.take(i as int).contains(k),
            forall|k: Seq<char>| #[trigger] r@.contains_key(k) ==> r@[k] == t@[k],
        decreases n - i,
    {
        let (k, v): (&str, &String) = t.entry(i);
        proof {
            lemma_take_contains(all, i as int);
        }
        r.insert(k.to_owned(), v.clone());
        i += 1;
    }
    proof {
        assert(all.take(n as int) =~= all);
        assert(r@ =~= t@);
    }
    r
}


// ---------------------------------------------------------------------------
// Laws
// ---------------------------------------------------------------------------

/// A locked session is busy, cannot be locked again before it is released, and
/// can be afterwards; the locks of other sessions are untouched.
pub proof fn law_lock_excludes(s: SessionModel, other: SessionModel, locks: Seq<bool>)
    requires
        has_lock(s, locks),
        has_lock(other, locks),
    ensures
        busy(s, locks.update(s.lock as int, true)),
        !busy(s, locks.update(s.lock as int, true).update(s.lock as int, false)),
        other.lock != s.lock ==> busy(other, locks.update(s.lock as int, true)) == busy(
            other,
            locks,
        ),
        other.lock == s.lock ==> busy(other, locks.update(s.lock as int, true)),
{
}

/// Once there is a session for a key, asking again gives the same one and
/// changes nothing.
pub proof fn law_get_or_create_is_stable(
    m: ManagerModel,
    key: Seq<char>,
    after: ManagerModel,
    again: ManagerModel,
)
    requires
        ensured(m, key, after),
        ensured(after, key, again),
    ensures
        active_session(after, key) is Some,
        again == after,
{
}

/// A new session is the active one of its key, with the work directory of the
/// one before; the sessions of other keys stay as they were.
pub proof fn law_new_session_is_active(
    m: ManagerModel,
    key: Seq<char>,
    name: Option<Seq<char>>,
    agent_type: Seq<char>,
    id: Seq<char>,
    at: Timestamp,
    other: Seq<char>,
)
    requires
        !m.sessions.contains_key(id),
        other != key,
        m.active.contains_key(other) ==> m.active[other] != id,
    ensures
        ({
            let after = created(m, key, name, agent_type, id, at);
            &&& active_session(after, key) is Some
            &&& active_session(after, key)->0.id == id
            &&& active_session(after, key)->0.name == name
            &&& active_session(after, key)->0.agent_type == agent_type
            &&& work_dir_of(after, key) == work_dir_of(m, key)
            &&& active_session(after, other) == active_session(m, other)
        }),
{
}

/// Sessions of different keys differ, as long as the random ids do.
pub proof fn law_keys_have_their_own_sessions(
    m: ManagerModel,
    a: Seq<char>,
    b: Seq<char>,
    id_a: Seq<char>,
    id_b: Seq<char>,
    at: Timestamp,
)
    requires
        a != b,
        id_a != id_b,
    ensures
        ({
            let m1 = created(m, a, None, Seq::empty(), id_a, at);
            let m2 = created(m1, b, None, Seq::empty(), id_b, at);
            &&& active_session(m2, a)->0.id == id_a
            &&& active_session(m2, b)->0.id == id_b
            &&& active_session(m2, a)->0.lock != active_session(m2, b)->0.lock
        }),
{
}

/// What is set is what is read, and the rest of the session stays but for the
/// time of its last change.
pub proof fn law_settings_are_read_back(
    m: ManagerModel,
    key: Seq<char>,
    value: Seq<char>,
    at: Timestamp,
)
    requires
        active_session(m, key) is Some,
    ensures
        work_dir_of(with_work_dir(m, key, value, at), key) == Some(value),
        active_session(with_tmux(m, key, value, at), key)->0.tmux_session == Some(value),
        work_dir_of(with_tmux(m, key, value, at), key) == work_dir_of(m, key),
        active_session(with_agent_session(m, key, value, at), key)->0.agent_session_id == (
        if value.len() == 0 {
            None
        } else {
            Some(value)
        }),
        active_session(renamed(m, key, value), key)->0.name == Some(value),
        active_session(renamed(m, key, value), key)->0.updated_at == active_session(
            m,
            key,
        )->0.updated_at,
        busy(active_session(renamed(m, key, value), key)->0, renamed(m, key, value).locks) == busy(
            active_session(m, key)->0,
            m.locks,
        ),
{
}

/// A session can be made active by the key that it belongs to and by no other;
/// then it is the one that is asked for, where it is filed under its own id, and
/// the one that is got next. Where it cannot, the active session of every key
/// stays.
pub proof fn law_switch_keeps_to_the_key(
    m: ManagerModel,
    key: Seq<char>,
    id: Seq<char>,
    next: ManagerModel,
)
    requires
        consistent(m),
        ensured(switched(m, key, id), key, next),
    ensures
        switchable(m, key, id) <==> m.sessions.contains_key(id) && m.keys[id] == key,
        switchable(m, key, id) && well_filed(m) ==> m.sessions[id].id == id,
        switchable(m, key, id) ==> active_session(switched(m, key, id), key) == Some(
            m.sessions[id],
        ),
        switchable(m, key, id) ==> next == switched(m, key, id) && active_session(next, key)
            == Some(m.sessions[id]),
        !switchable(m, key, id) ==> switched(m, key, id) == m,
        m.keys.contains_key(id) && m.keys[id] != key ==> switched(m, key, id) == m,
        !m.sessions.contains_key(id) ==> switched(m, key, id) == m,
{
}

/// A deleted session is gone: it is not the active one of its key and cannot
/// be made so, and it is listed for no key.
pub proof fn law_deleted_session_is_gone(
    m: ManagerModel,
    key: Seq<char>,
    id: Seq<char>,
    any: Seq<char>,
    v: Seq<SessionModel>,
)
    requires
        is_listing(deleted(m, key, id), any, None, v),
    ensures
        !switchable(deleted(m, key, id), any, id),
        m.active.contains_key(key) && m.active[key] == id ==> active_session(
            deleted(m, key, id),
            key,
        ) is None,
        forall|i: int| 0 <= i < v.len() ==> (#[trigger] v[i]).id != id,
{
    let after = deleted(m, key, id);
    let ids = choose|ids: Seq<Seq<char>>| #[trigger] lists(after, any, None, v, ids);
    assert forall|i: int| 0 <= i < v.len() implies (#[trigger] v[i]).id != id by {
        assert(after.sessions.contains_key(ids[i]));
    }
}

/// The marker for the most recent agent session is neither saved nor loaded.
pub proof fn law_marker_never_survives(m: ManagerModel, id: Seq<char>, d: DataModel, lock: nat)
    requires
        m.sessions.contains_key(id),
    ensures
        saved_sessions(m)[id].agent_session_id != Some(CONTINUE_SESSION@),
        session_of(d, lock).agent_session_id != Some(CONTINUE_SESSION@),
{
}

/// What is loaded from a saved state is what was saved: the same sessions
/// under the same keys, with the same one active for each key, all of them
/// free, and without the marker for the most recent agent session.
pub proof fn law_reload_gives_back_what_was_saved(m: ManagerModel, after: ManagerModel)
    requires
        consistent(m),
        is_loaded(after, saved_sessions(m), m.active, Seq::empty()),
    ensures
        after.active == m.active,
        after.keys == m.keys,
        after.sessions.dom() == m.sessions.dom(),
        forall|id: Seq<char>| #[trigger]
            m.sessions.contains_key(id) ==> after.sessions[id] == (SessionModel {
                agent_session_id: resumable(m.sessions[id].agent_session_id),
                lock: after.sessions[id].lock,
                ..m.sessions[id]
            }) && !busy(after.sessions[id], after.locks),
{
    let saved = saved_sessions(m);
    assert(saved.dom() =~= m.sessions.dom());
    assert(after.keys =~= m.keys) by {
        assert forall|id: Seq<char>| #[trigger] m.keys.contains_key(id) implies after.keys[id]
            == m.keys[id] by {
            assert(m.sessions.dom().contains(id));
            assert(after.sessions.contains_key(id));
        }
    }
    assert forall|id: Seq<char>| #[trigger] m.sessions.contains_key(id) implies after.sessions[id]
        == (SessionModel {
        agent_session_id: resumable(m.sessions[id].agent_session_id),
        lock: after.sessions[id].lock,
        ..m.sessions[id]
    }) && !busy(after.sessions[id], after.locks) by {
        assert(after.sessions.contains_key(id));
        assert(resumable(resumable(m.sessions[id].agent_session_id)) == resumable(
            m.sessions[id].agent_session_id,
        ));
    }
}

/// Listing goes by the agent type that a session works with: one without a
/// recorded type counts as the default agent's.
pub proof fn law_default_agent_lists_untyped_sessions(
    m: ManagerModel,
    key: Seq<char>,
    s: SessionModel,
)
    requires
        listed(m, s, key, None),
        s.agent_type.len() == 0,
    ensures
        listed(m, s, key, Some(m.default_type)),
{
}

/// Sessions stay filed under their own ids, whatever is done with them, and a
/// saved state is loaded so.
pub proof fn law_sessions_stay_filed(
    m: ManagerModel,
    key: Seq<char>,
    id: Seq<char>,
    text: Seq<char>,
    name: Option<Seq<char>>,
    at: Timestamp,
    after: ManagerModel,
)
    requires
        well_filed(m),
    ensures
        well_filed(created(m, key, name, text, id, at)),
        ensured(m, key, after) ==> well_filed(after),
        well_filed(with_work_dir(m, key, text, at)),
        well_filed(with_tmux(m, key, text, at)),
        well_filed(with_agent_session(m, key, text, at)),
        well_filed(renamed(m, key, text)),
        well_filed(switched(m, key, id)),
        well_filed(deleted(m, key, id)),
        is_loaded(after, saved_sessions(m), m.active, Seq::empty()) ==> well_filed(after),
{
    if is_loaded(after, saved_sessions(m), m.active, Seq::empty()) {
        assert forall|x: Seq<char>| #[trigger] after.sessions.contains_key(x) implies
            after.sessions[x].id == x by {
            assert(saved_sessions(m).dom().contains(x));
            assert(m.sessions.contains_key(x));
        }
    }
}

/// The name that a directory's sessions are kept under is the directory, with
/// hyphens for slashes, so that it is the name of one directory below another.
pub proof fn law_directory_names_its_state(dir: Seq<char>)
    ensures
        encoded(dir).len() == dir.len(),
        !encoded(dir).contains('/'),
        forall|i: int| 0 <= i < dir.len() && dir[i] != '/' ==> #[trigger] encoded(dir)[i] == dir[i],
        forall|i: int| 0 <= i < dir.len() && dir[i] == '/' ==> #[trigger] encoded(dir)[i] == '-',
{
    reveal_strlit("/");
    reveal_strlit("-");
    assert("/"@ =~= seq!['/']);
    assert("-"@ =~= seq!['-']);
    law_replacing_a_character(dir, '/', '-');
}

/// An agent's list shows its own sessions: none of another agent, none of
/// another key.
pub proof fn law_list_shows_its_own_sessions(
    m: ManagerModel,
    key: Seq<char>,
    agent: Seq<char>,
    i: int,
)
    requires
        consistent(m),
        0 <= i < listing(m, key, Some(agent)).len(),
    ensures
        ({
            let s = listing(m, key, Some(agent))[i];
            &&& m.keys[s.id] == key
            &&& s.agent_type.len() > 0 ==> s.agent_type == agent
            &&& s.agent_type.len() == 0 ==> agent == m.default_type
        }),
{
    law_listing_holds_the_sessions(m, key, Some(agent));
    let v = listing(m, key, Some(agent));
    let ids = choose|ids: Seq<Seq<char>>| #[trigger] lists(m, key, Some(agent), v, ids);
    assert(m.sessions.contains_key(ids[i]) && m.sessions[ids[i]] == v[i]);
}

/// A session that is made is listed for its key, first of all where none is
/// newer, and what was listed before stays listed.
pub proof fn law_new_session_is_listed(
    m: ManagerModel,
    key: Seq<char>,
    name: Option<Seq<char>>,
    agent: Seq<char>,
    id: Seq<char>,
    at: Timestamp,
)
    requires
        consistent(m),
        valid_time(at),
        !m.sessions.contains_key(id),
    ensures
        ({
            let after = created(m, key, name, agent, id, at);
            exists|i: int|
                0 <= i < listing(after, key, None).len() && (#[trigger] listing(
                    after,
                    key,
                    None,
                )[i]).id == id
        }),
{
    let after = created(m, key, name, agent, id, at);
    assert(after.sessions.dom() =~= after.keys.dom());
    assert(after.order == m.order.push(id));
    assert forall|x: Seq<char>| #[trigger] after.order.contains(x) <==> after.sessions.contains_key(
        x,
    ) by {
        if m.sessions.contains_key(x) {
            assert(m.order.contains(x));
            let k = choose|k: int| 0 <= k < m.order.len() && m.order[k] == x;
            assert(after.order[k] == x);
        }
        if after.order.contains(x) && x != id {
            let k = choose|k: int| 0 <= k < after.order.len() && after.order[k] == x;
            assert(m.order[k] == x);
            assert(m.order.contains(x));
        }
        assert(after.order[m.order.len() as int] == id);
    }
    assert(after.order.no_duplicates()) by {
        assert(!m.order.contains(id));
        assert forall|a: int, b: int|
            0 <= a < after.order.len() && 0 <= b < after.order.len() && a != b implies
            after.order[a] != after.order[b] by {
            if a == m.order.len() {
                assert(m.order.contains(m.order[b]));
            } else if b == m.order.len() {
                assert(m.order.contains(m.order[a]));
            }
        }
    }
    assert(consistent(after));
    law_listing_holds_the_sessions(after, key, None);
    let v = listing(after, key, None);
    let ids = choose|ids: Seq<Seq<char>>| #[trigger] lists(after, key, None, v, ids);
    assert(after.sessions.contains_key(id) && listed(after, after.sessions[id], key, None));
    assert(ids.contains(id));
    let i = choose|i: int| 0 <= i < ids.len() && ids[i] == id;
    assert(after.sessions[ids[i]] == v[i]);
    assert(v[i].id == id);
}

/// The list of all sessions has each of them with its key, and the list of the
/// active ones has each key that has one, once, with the session it would get.
pub proof fn law_lists_leave_out_no_session(
    m: ManagerModel,
    all: Seq<(Seq<char>, SessionModel)>,
    active: Seq<(Seq<char>, SessionModel)>,
    id: Seq<char>,
    key: Seq<char>,
)
    requires
        is_full_listing(m, all),
        is_active_listing(m, active),
    ensures
        m.sessions.contains_key(id) ==> all.contains((m.keys[id], m.sessions[id])),
        active_session(m, key) is Some ==> active.contains((key, active_session(m, key)->0)),
        active_session(m, key) is None ==> forall|i: int|
            0 <= i < active.len() ==> (#[trigger] active[i]).0 != key,
{
    let ids = choose|ids: Seq<Seq<char>>| #[trigger] lists_all(m, all, ids);
    if m.sessions.contains_key(id) {
        assert(ids.contains(id));
        let i = choose|i: int| 0 <= i < ids.len() && ids[i] == id;
        assert(all[i] == (m.keys[id], m.sessions[id]));
    }
    if active_session(m, key) is Some {
        assert(holds_key(active, key));
        let k = choose|k: int| 0 <= k < active.len() && #[trigger] active[k].0 == key;
        assert(active_session(m, active[k].0) == Some(active[k].1));
        assert(active[k] == (key, active_session(m, key)->0));
    } else {
        assert forall|i: int| 0 <= i < active.len() implies (#[trigger] active[i]).0 != key by {
            assert(active_session(m, active[i].0) == Some(active[i].1));
        }
    }
}

} // verus!
