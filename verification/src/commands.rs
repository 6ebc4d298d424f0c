//! The slash commands on sessions and settings.
//!
//! Each command gives a reply, or names an [`Errand`] that has to be run
//! outside (scheduled jobs, tmux, the file system, synchronisation) and a
//! function that makes the reply of what it brought.

use crate::bytes::{byte_len, lemma_fitting, short, shorten, within};
use crate::clock::{format_time, time_text, uuid_shaped, valid_time, Timestamp};
use crate::config::{AgentEntry, CommandConfig, ProjectConfig};
use crate::engine::{agent_named, find_agent};
use crate::session::{
    active_session, consistent, created, deleted, ensured, law_listing_holds_the_sessions, listing,
    lists, models, renamed, switchable, switched, valid_times, well_filed, with_agent_session,
    with_tmux, with_work_dir, work_dir_of, ManagerModel, Session, SessionManager, SessionModel,
    CONTINUE_SESSION,
};
use crate::table::PairTable;
use crate::text::{
    after_word, chars_of, clip, clipped, clone_opt, cut_word, decimal, decimal_of, first_word,
    is_space, join, joined, law_decimal_reads_back, law_trimmed_stands_in_the_text, lemma_occurs_in,
    lemma_part_occurs, lemma_texts_push, lemma_word_len, lemma_word_len_bounds, lines, lines_of,
    occurs, occurs_at, same, starts_with, text_opt, texts, trim, trimmed, value_of, word_len,
};
use vstd::prelude::*;
use vstd::string::*;

verus! {

// ---------------------------------------------------------------------------
// Modes
// ---------------------------------------------------------------------------

/// Whether `mode` is one of the permission modes.
pub open spec fn known_mode(mode: Seq<char>) -> bool {
    ||| mode == "default"@
    ||| mode == "yolo"@
    ||| mode == "plan"@
    ||| mode == "auto"@
}

/// Whether `args` names a permission mode.
pub fn is_valid_mode(args: &str) -> (r: bool)
    ensures
        r == known_mode(args@),
{
    same(args, "default") || same(args, "yolo") || same(args, "plan") || same(args, "auto")
}

/// The permission modes, as they are shown to users.
pub const MODES: &'static str = "default, yolo, plan, auto";

// ---------------------------------------------------------------------------
// Help
// ---------------------------------------------------------------------------

/// The help on the commands that are always there.
pub const HELP: &'static str = "/new [name] - New session\n/list - List sessions\n/switch <id> - Switch session\n/resume [id] - List sessions, or resume one\n/current - Current session info\n/delete - Delete current session\n/name [name] - Rename current session\n/stop - Interrupt current task (keeps the session)\n/verbose [on|off] - Toggle showing tool progress + thinking\n/compress - Compress context\n/history - Session history\n/btw <msg> - Inject mid-turn message\n/model [name] - Switch model\n/mode [mode] - Switch permission mode\n/agent [name] - Switch agent backend\n/cron add|list|del - Scheduled tasks\n/skills - List available skills\n/commands - List custom commands\n/dir [path] - View/change work directory\n/attach [tmux-session] - Bind channel to a tmux session (tmux backend)\n/sync [pull|push] - Sync session\n/status - Show status\n/help - Show help";

/// `start`, and behind it a line for each custom command.
pub open spec fn with_help_lines(start: Seq<char>, commands: Seq<CommandConfig>) -> Seq<char>
    decreases commands.len(),
{
    if commands.len() == 0 {
        start
    } else {
        let c = commands.last();
        with_help_lines(start, commands.drop_last()) + "\n/"@ + c.name@ + " - "@ + c.description@
    }
}

/// The help with the custom commands.
pub open spec fn help_text(commands: Seq<CommandConfig>) -> Seq<char> {
    if commands.len() == 0 {
        HELP@
    } else {
        with_help_lines(HELP@ + "\n\nCustom commands:"@, commands)
    }
}

/// `/help`
pub fn cmd_help(custom_commands: &Vec<CommandConfig>) -> (r: String)
    ensures
        r@ == help_text(custom_commands@),
{
    let mut help: String = HELP.to_owned();
    if custom_commands.len() > 0 {
        help.append("\n\nCustom commands:");
        let ghost start = help@;
        let mut i: usize = 0;
        assert(custom_commands@.take(0) =~= Seq::empty());
        while i < custom_commands.len()
            invariant
                i <= custom_commands.len(),
                help@ == with_help_lines(start, custom_commands@.take(i as int)),
            decreases custom_commands.len() - i,
        {
            let c: &CommandConfig = &custom_commands[i];
            assert(custom_commands@.take(i + 1).drop_last() =~= custom_commands@.take(i as int));
            help.append("\n/");
            help.append(c.name.as_str());
            help.append(" - ");
            help.append(c.description.as_str());
            i += 1;
        }
        assert(custom_commands@.take(i as int) =~= custom_commands@);
    }
    help
}

/// `start`, and behind it a line for each custom command.
pub open spec fn with_command_lines(start: Seq<char>, commands: Seq<CommandConfig>) -> Seq<char>
    decreases commands.len(),
{
    if commands.len() == 0 {
        start
    } else {
        let c = commands.last();
        with_command_lines(start, commands.drop_last()) + "/"@ + c.name@ + " - "@ + c.description@
            + "\n"@
    }
}

/// The list of the custom commands.
pub open spec fn commands_text(commands: Seq<CommandConfig>) -> Seq<char> {
    if commands.len() == 0 {
        "No custom commands configured.\nDefine commands in config.yaml under 'commands:'."@
    } else {
        with_command_lines("Custom commands:\n"@, commands)
    }
}

/// `/commands`
pub fn cmd_list_commands(custom_commands: &Vec<CommandConfig>) -> (r: String)
    ensures
        r@ == commands_text(custom_commands@),
{
    if custom_commands.len() == 0 {
        return "No custom commands configured.\nDefine commands in config.yaml under 'commands:'."
            .to_owned();
    }
    let mut result: String = "Custom commands:\n".to_owned();
    let ghost start = result@;
    let mut i: usize = 0;
    assert(custom_commands@.take(0) =~= Seq::empty());
    while i < custom_commands.len()
        invariant
            i <= custom_commands.len(),
            result@ == with_command_lines(start, custom_commands@.take(i as int)),
        decreases custom_commands.len() - i,
    {
        let c: &CommandConfig = &custom_commands[i];
        assert(custom_commands@.take(i + 1).drop_last() =~= custom_commands@.take(i as int));
        result.append("/");
        result.append(c.name.as_str());
        result.append(" - ");
        result.append(c.description.as_str());
        result.append("\n");
        i += 1;
    }
    assert(custom_commands@.take(i as int) =~= custom_commands@);
    result
}

// ---------------------------------------------------------------------------
// Models and modes
// ---------------------------------------------------------------------------

/// The choices of users, by session key and agent.
pub type Overrides = Map<(Seq<char>, Seq<char>), Seq<char>>;

pub open spec fn override_of(o: Overrides, key: Seq<char>, agent: Seq<char>) -> Option<Seq<char>> {
    if o.contains_key((key, agent)) {
        Some(o[(key, agent)])
    } else {
        None
    }
}

fn chosen(o: &PairTable, key: &str, agent: &str) -> (r: Option<String>)
    ensures
        text_opt(r) == override_of(o@, key@, agent@),
{
    match o.get(key, agent) {
        Some(v) => Some(v.to_owned()),
        None => None,
    }
}

/// Where a setting comes from.
pub open spec fn source_of(chosen: bool) -> Seq<char> {
    if chosen {
        "override"@
    } else {
        "config"@
    }
}

/// The model that the configuration gives an agent.
pub open spec fn configured_model(config: ProjectConfig, agent: Seq<char>) -> Option<Seq<char>> {
    match agent_named(config.agents@, agent) {
        Some(e) => if e.model is Some {
            text_opt(e.model)
        } else {
            text_opt(config.agent.model)
        },
        None => text_opt(config.agent.model),
    }
}

/// The permission mode that the configuration gives an agent.
pub open spec fn configured_mode(config: ProjectConfig, agent: Seq<char>) -> Seq<char> {
    match agent_named(config.agents@, agent) {
        Some(e) => e.mode@,
        None => config.agent.mode@,
    }
}

fn mode_in_config(config: &ProjectConfig, agent: &str) -> (r: String)
    ensures
        r@ == configured_mode(*config, agent@),
{
    match find_agent(config, agent) {
        Some(e) => e.mode.clone(),
        None => config.agent.mode.clone(),
    }
}

/// The text of an option, or another one.
pub open spec fn or_text(s: Option<Seq<char>>, default: Seq<char>) -> Seq<char> {
    match s {
        Some(x) => x,
        None => default,
    }
}

fn text_or_else<'a>(s: &'a Option<String>, default: &'a str) -> (r: &'a str)
    ensures
        r@ == or_text(text_opt(*s), default@),
{
    match s {
        Some(x) => x.as_str(),
        None => default,
    }
}

/// The reply to `/model`.
pub open spec fn model_reply(
    config: ProjectConfig,
    o: Overrides,
    key: Seq<char>,
    agent: Seq<char>,
    args: Seq<char>,
) -> Seq<char> {
    let chosen = override_of(o, key, agent);
    if args.len() == 0 {
        "Current model: "@ + or_text(
            if chosen is Some {
                chosen
            } else {
                configured_model(config, agent)
            },
            "default"@,
        ) + " ("@ + source_of(chosen is Some) + ") [agent: "@ + agent + "]"@
    } else {
        "Model set to: "@ + args + " [agent: "@ + agent + "]\nTakes effect on next message."@
    }
}

/// `/model [name]`
pub fn cmd_model(
    config: &ProjectConfig,
    session_key: &str,
    agent_name: &str,
    model_override: &mut PairTable,
    args: &str,
) -> (r: String)
    ensures
        r@ == model_reply(*config, old(model_override)@, session_key@, agent_name@, args@),
        final(model_override)@ == if args@.len() == 0 {
            old(model_override)@
        } else {
            old(model_override)@.insert((session_key@, agent_name@), args@)
        },
{
    if args.is_empty() {
        let value: Option<String> = chosen(model_override, session_key, agent_name);
        let default_model: Option<String> = match find_agent(config, agent_name) {
            Some(e) => match &e.model {
                Some(m) => Some(m.clone()),
                None => clone_opt(&config.agent.model),
            },
            None => clone_opt(&config.agent.model),
        };
        let mut r: String = "Current model: ".to_owned();
        if value.is_some() {
            r.append(text_or_else(&value, "default"));
        } else {
            r.append(text_or_else(&default_model, "default"));
        }
        r.append(" (");
        if value.is_some() {
            r.append("override");
        } else {
            r.append("config");
        }
        r.append(") [agent: ");
        r.append(agent_name);
        r.append("]");
        r
    } else {
        model_override.insert(session_key.to_owned(), agent_name.to_owned(), args.to_owned());
        let mut r: String = "Model set to: ".to_owned();
        r.append(args);
        r.append(" [agent: ");
        r.append(agent_name);
        r.append("]\nTakes effect on next message.");
        r
    }
}

/// The reply to `/mode`.
pub open spec fn mode_reply(
    config: ProjectConfig,
    o: Overrides,
    key: Seq<char>,
    agent: Seq<char>,
    args: Seq<char>,
) -> Seq<char> {
    let chosen = override_of(o, key, agent);
    if args.len() == 0 {
        "Current mode: "@ + or_text(chosen, configured_mode(config, agent)) + " ("@ + source_of(
            chosen is Some,
        ) + ") [agent: "@ + agent + "]\nAvailable: "@ + MODES@
    } else if !known_mode(args) {
        "Unknown mode: "@ + args + "\nAvailable: "@ + MODES@
    } else {
        "Mode set to: "@ + args + " [agent: "@ + agent + "]\nTakes effect on next message."@
    }
}

/// `/mode [mode]`
pub fn cmd_mode(
    config: &ProjectConfig,
    session_key: &str,
    agent_name: &str,
    mode_override: &mut PairTable,
    args: &str,
) -> (r: String)
    ensures
        r@ == mode_reply(*config, old(mode_override)@, session_key@, agent_name@, args@),
        final(mode_override)@ == if known_mode(args@) {
            old(mode_override)@.insert((session_key@, agent_name@), args@)
        } else {
            old(mode_override)@
        },
{
    proof {
        reveal_strlit("default");
        reveal_strlit("yolo");
        reveal_strlit("plan");
        reveal_strlit("auto");
    }
    if args.is_empty() {
        let value: Option<String> = chosen(mode_override, session_key, agent_name);
        let default_mode: String = mode_in_config(config, agent_name);
        let mut r: String = "Current mode: ".to_owned();
        r.append(text_or_else(&value, default_mode.as_str()));
        r.append(" (");
        if value.is_some() {
            r.append("override");
        } else {
            r.append("config");
        }
        r.append(") [agent: ");
        r.append(agent_name);
        r.append("]\nAvailable: ");
        r.append(MODES);
        return r;
    }
    if !is_valid_mode(args) {
        let mut r: String = "Unknown mode: ".to_owned();
        r.append(args);
        r.append("\nAvailable: ");
        r.append(MODES);
        return r;
    }
    mode_override.insert(session_key.to_owned(), agent_name.to_owned(), args.to_owned());
    let mut r: String = "Mode set to: ".to_owned();
    r.append(args);
    r.append(" [agent: ");
    r.append(agent_name);
    r.append("]\nTakes effect on next message.");
    r
}

// ---------------------------------------------------------------------------
// Numbers
// ---------------------------------------------------------------------------

pub open spec fn is_digit(c: char) -> bool {
    '0' <= c <= '9'
}

pub open spec fn all_digits(s: Seq<char>) -> bool {
    forall|i: int| 0 <= i < s.len() ==> is_digit(#[trigger] s[i])
}

/// The number that decimal digits stand for.
pub open spec fn value(s: Seq<char>) -> nat
    decreases s.len(),
{
    if s.len() == 0 {
        0
    } else {
        (value(s.drop_last()) * 10 + (s.last() as int - 48)) as nat
    }
}

/// The number that a text is: decimal digits, with or without a plus sign, for
/// a number within the machine's range.
pub open spec fn number_in(s: Seq<char>) -> Option<nat> {
    let d = if s.len() > 1 && s[0] == '+' {
        s.skip(1)
    } else {
        s
    };
    if d.len() > 0 && all_digits(d) && value(d) <= usize::MAX {
        Some(value(d))
    } else {
        None
    }
}

/// More digits make no smaller number.
proof fn lemma_value_grows(s: Seq<char>, i: int)
    requires
        all_digits(s),
        0 <= i <= s.len(),
    ensures
        value(s.take(i)) <= value(s),
    decreases s.len() - i,
{
    if i == s.len() {
        assert(s.take(i) =~= s);
    } else {
        lemma_value_grows(s, i + 1);
        let t = s.take(i + 1);
        assert(t.drop_last() =~= s.take(i));
        assert(is_digit(s[i]));
        assert(t.last() == s[i]);
    }
}

fn digit_value(c: char) -> (r: usize)
    requires
        is_digit(c),
    ensures
        r == c as int - 48,
        r <= 9,
{
    (c as u32 - 48) as usize
}

/// The number that a text is, where it is one.
pub fn parse_number(s: &str) -> (r: Option<usize>)
    ensures
        match r {
            Some(n) => number_in(s@) == Some(n as nat),
            None => number_in(s@) is None,
        },
{
    let v: Vec<char> = chars_of(s);
    let start: usize = if v.len() > 1 && v[0] == '+' {
        1
    } else {
        0
    };
    let ghost d = s@.skip(start as int);
    assert(start == 0 ==> d =~= s@);
    if v.len() == start {
        return None;
    }
    let mut i: usize = start;
    let mut n: usize = 0;
    assert(d.take(0) =~= Seq::<char>::empty());
    while i < v.len()
        invariant
            start <= i <= v.len(),
            start == if s@.len() > 1 && s@[0] == '+' {
                1int
            } else {
                0
            },
            v@ == s@,
            d == s@.skip(start as int),
            start == 0 ==> d == s@,
            n == value(d.take(i - start)),
            forall|k: int| 0 <= k < i - start ==> is_digit(#[trigger] d[k]),
        decreases v.len() - i,
    {
        assert(d[i - start] == v@[i as int]);
        if !('0' <= v[i] && v[i] <= '9') {
            return None;
        }
        let x: usize = digit_value(v[i]);
        proof {
            let t = d.take(i + 1 - start);
            assert(t.drop_last() =~= d.take(i - start));
            assert(t.last() == d[i - start]);
            assert(value(t) == n * 10 + x);
        }
        if n > (usize::MAX - x) / 10 {
            proof {
                assert(n * 10 + x > usize::MAX);
                if all_digits(d) {
                    lemma_value_grows(d, i + 1 - start);
                }
            }
            return None;
        }
        n = n * 10 + x;
        i += 1;
    }
    assert(d.take(i - start) =~= d);
    Some(n)
}

// ---------------------------------------------------------------------------
// Sessions
// ---------------------------------------------------------------------------

/// A name for users, or a word for there being none.
pub open spec fn shown_name(s: SessionModel) -> Seq<char> {
    or_text(s.name, "unnamed"@)
}

/// What `/status` shows.
pub open spec fn status_text(
    config: ProjectConfig,
    s: SessionModel,
    agent: Seq<char>,
    mode: Seq<char>,
    model: Seq<char>,
) -> Seq<char> {
    "Status\nProject: "@ + config.name@ + "\nAgent: "@ + agent + "\nMode: "@ + mode + "\nModel: "@
        + model + "\nSession: "@ + short(s.id) + " ("@ + shown_name(s) + ")"@
}

/// The model that the configuration gives an agent of its own.
pub open spec fn own_model(config: ProjectConfig, agent: Seq<char>) -> Option<Seq<char>> {
    match agent_named(config.agents@, agent) {
        Some(e) => text_opt(e.model),
        None => None,
    }
}

/// `/status`
pub fn cmd_status(
    config: &ProjectConfig,
    sessions: &mut SessionManager,
    key: &str,
    agent_name: &str,
    model_override: &PairTable,
    mode_override: &PairTable,
) -> (r: String)
    requires
        old(sessions).well_formed(),
    ensures
        final(sessions).well_formed(),
        ensured(old(sessions)@, key@, final(sessions)@),
        active_session(final(sessions)@, key@) is Some,
        r@ == status_text(
            *config,
            active_session(final(sessions)@, key@)->0,
            agent_name@,
            or_text(
                override_of(mode_override@, key@, agent_name@),
                configured_mode(*config, agent_name@),
            ),
            or_text(
                if override_of(model_override@, key@, agent_name@) is Some {
                    override_of(model_override@, key@, agent_name@)
                } else {
                    own_model(*config, agent_name@)
                },
                "default"@,
            ),
        ),
{
    let session: Session = sessions.get_or_create(key);
    let chosen_model: Option<String> = chosen(model_override, key, agent_name);
    let model: Option<String> = if chosen_model.is_some() {
        chosen_model
    } else {
        match find_agent(config, agent_name) {
            Some(e) => clone_opt(&e.model),
            None => None,
        }
    };
    let chosen_mode: Option<String> = chosen(mode_override, key, agent_name);
    let default_mode: String = mode_in_config(config, agent_name);
    let mut r: String = "Status\nProject: ".to_owned();
    r.append(config.name.as_str());
    r.append("\nAgent: ");
    r.append(agent_name);
    r.append("\nMode: ");
    r.append(text_or_else(&chosen_mode, default_mode.as_str()));
    r.append("\nModel: ");
    r.append(text_or_else(&model, "default"));
    r.append("\nSession: ");
    r.append(shorten(session.id.as_str()));
    r.append(" (");
    r.append(text_or_else(&session.name, "unnamed"));
    r.append(")");
    r
}

/// The name in the arguments of `/new`.
pub open spec fn name_in(args: Seq<char>) -> Option<Seq<char>> {
    if args.len() == 0 {
        None
    } else {
        Some(args)
    }
}

/// Whether `/new` made a session and replied so.
pub open spec fn new_done(
    m: ManagerModel,
    after: ManagerModel,
    key: Seq<char>,
    agent: Seq<char>,
    args: Seq<char>,
    reply: Seq<char>,
) -> bool {
    exists|id: Seq<char>, at: Timestamp|
        uuid_shaped(id) && valid_time(at) && after == #[trigger] created(
            m,
            key,
            name_in(args),
            agent,
            id,
            at,
        ) && reply == "New session created: "@ + short(id)
}

/// `/new [name]`
pub fn cmd_new(sessions: &mut SessionManager, key: &str, agent_name: &str, args: &str) -> (r: String)
    requires
        old(sessions).well_formed(),
    ensures
        final(sessions).well_formed(),
        new_done(old(sessions)@, final(sessions)@, key@, agent_name@, args@, r@),
{
    let name: Option<String> = if args.is_empty() {
        None
    } else {
        Some(args.to_owned())
    };
    let session: Session = sessions.new_session_with_agent(key, name, agent_name);
    let mut r: String = "New session created: ".to_owned();
    r.append(shorten(session.id.as_str()));
    assert(sessions@ == created(
        old(sessions)@,
        key@,
        name_in(args@),
        agent_name@,
        session@.id,
        session@.created_at,
    ));
    r
}

/// One session in the list.
pub open spec fn list_line(i: int, s: SessionModel, active: Seq<char>) -> Seq<char> {
    decimal((i + 1) as nat) + ". "@ + shown_name(s) + " ["@ + short(s.id) + "] "@ + time_text(
        s.created_at,
        "%m-%d %H:%M"@,
    ) + (if s.id == active {
        " <-"@
    } else {
        ""@
    })
}

/// The list of sessions, with a mark at the active one.
pub open spec fn list_text(v: Seq<SessionModel>, active: Seq<char>) -> Seq<char> {
    joined(Seq::new(v.len(), |i: int| list_line(i, v[i], active)), "\n"@)
}

/// The list of the given sessions.
pub fn list_sessions(list: &Vec<Session>, active: &str) -> (r: String)
    requires
        forall|i: int| 0 <= i < list.len() ==> valid_time((#[trigger] list[i]@).created_at),
    ensures
        r@ == list_text(models(list@), active@),
{
    let ghost v = models(list@);
    let ghost all = Seq::new(v.len(), |i: int| list_line(i, v[i], active@));
    let mut out: Vec<String> = Vec::new();
    let mut i: usize = 0;
    while i < list.len()
        invariant
            i <= list.len(),
            v == models(list@),
            forall|i: int| 0 <= i < list.len() ==> valid_time((#[trigger] list[i]@).created_at),
            all == Seq::new(v.len(), |i: int| list_line(i, v[i], active@)),
            texts(out@) == all.take(i as int),
        decreases list.len() - i,
    {
        let s: &Session = &list[i];
        assert(v[i as int] == s@);
        assert(valid_time(list[i as int]@.created_at));
        let mut line: String = decimal_of(i as u64 + 1);
        line.append(". ");
        line.append(text_or_else(&s.name, "unnamed"));
        line.append(" [");
        line.append(shorten(s.id.as_str()));
        line.append("] ");
        let date: String = format_time(s.created_at, "%m-%d %H:%M");
        line.append(date.as_str());
        if same(s.id.as_str(), active) {
            line.append(" <-");
        } else {
            line.append("");
        }
        proof {
            assert(line@ == all[i as int]);
            lemma_texts_push(out@, line);
            assert(all.take(i as int).push(line@) =~= all.take(i + 1));
        }
        out.push(line);
        i += 1;
    }
    assert(all.take(i as int) =~= all);
    join(&out, "\n")
}

/// The sessions of a listing are sessions of the manager, so their times are
/// times of the calendar.
proof fn lemma_listing_valid(
    m: ManagerModel,
    key: Seq<char>,
    agent: Option<Seq<char>>,
    list: Seq<Session>,
)
    requires
        consistent(m),
        models(list) == listing(m, key, agent),
    ensures
        forall|i: int| 0 <= i < list.len() ==> valid_times(#[trigger] list[i]@),
{
    law_listing_holds_the_sessions(m, key, agent);
    let ids = choose|ids: Seq<Seq<char>>| #[trigger] lists(m, key, agent, models(list), ids);
    assert forall|i: int| 0 <= i < list.len() implies valid_times(#[trigger] list[i]@) by {
        assert(m.sessions.contains_key(ids[i]) && m.sessions[ids[i]] == models(list)[i]);
    }
}

/// Whether `/list` replied with the sessions of the key and the agent.
pub open spec fn list_done(
    m: ManagerModel,
    after: ManagerModel,
    key: Seq<char>,
    agent: Seq<char>,
    reply: Seq<char>,
) -> bool {
    let v = listing(m, key, Some(agent));
    if v.len() == 0 {
        after == m && reply == "No sessions."@
    } else {
        ensured(m, key, after) && active_session(after, key) is Some && reply == list_text(
            v,
            active_session(after, key)->0.id,
        )
    }
}

/// `/list`
pub fn cmd_list(sessions: &mut SessionManager, key: &str, agent_name: &str) -> (r: String)
    requires
        old(sessions).well_formed(),
    ensures
        final(sessions).well_formed(),
        list_done(old(sessions)@, final(sessions)@, key@, agent_name@, r@),
{
    let list: Vec<Session> = sessions.list_for_agent(key, agent_name);
    assert(models(list@).len() == list.len());
    if list.len() == 0 {
        return "No sessions.".to_owned();
    }
    let active: Session = sessions.get_or_create(key);
    proof {
        lemma_listing_valid(old(sessions)@, key@, Some(agent_name@), list@);
    }
    list_sessions(&list, active.id.as_str())
}

/// What `/switch` comes to: a session to switch to, or a reply.
pub enum Pick {
    Take(Seq<char>),
    Refuse(Seq<char>),
}

/// The sessions whose ids start with a text.
pub open spec fn with_prefix(v: Seq<SessionModel>, p: Seq<char>) -> Seq<SessionModel> {
    v.filter(|s: SessionModel| p.is_prefix_of(s.id))
}

/// The choice of a session by the start of its id.
pub open spec fn pick_by_id(m: ManagerModel, key: Seq<char>, args: Seq<char>, v: Seq<SessionModel>) ->
    Pick {
    let found = with_prefix(v, args);
    if found.len() == 0 {
        Pick::Refuse("No matching session found."@)
    } else if found.len() == 1 {
        if switchable(m, key, found[0].id) {
            Pick::Take(found[0].id)
        } else {
            Pick::Refuse("Switch failed."@)
        }
    } else {
        Pick::Refuse(
            "Matched "@ + decimal(found.len()) + " sessions, please provide a more specific ID."@,
        )
    }
}

/// How many characters of an id a list shows.
pub const SHOWN_ID: usize = 8;

/// The choice of a session by its number in the list `shown`, else by the start
/// of its id among `v`. An id as a list shows it may be made of digits alone:
/// as a number it is out of range.
pub open spec fn pick(
    m: ManagerModel,
    key: Seq<char>,
    args: Seq<char>,
    shown: Seq<SessionModel>,
    v: Seq<SessionModel>,
) -> Pick {
    match number_in(args) {
        Some(n) => if n == 0 || n > shown.len() {
            if args.len() < SHOWN_ID || with_prefix(v, args).len() == 0 {
                Pick::Refuse("Invalid number. "@ + decimal(shown.len()) + " sessions total."@)
            } else {
                pick_by_id(m, key, args, v)
            }
        } else if switchable(m, key, shown[n - 1].id) {
            Pick::Take(shown[n - 1].id)
        } else {
            pick_by_id(m, key, args, v)
        },
        None => pick_by_id(m, key, args, v),
    }
}

/// The reply to a switch that worked.
pub open spec fn switched_text(s: SessionModel) -> Seq<char> {
    "Switched to: "@ + shown_name(s) + " ["@ + short(s.id) + "]"@
}

/// The state and the reply after a choice.
pub open spec fn picked(
    m: ManagerModel,
    after: ManagerModel,
    key: Seq<char>,
    p: Pick,
    reply: Seq<char>,
) -> bool {
    match p {
        Pick::Take(id) => after == switched(m, key, id) && reply == switched_text(m.sessions[id]),
        Pick::Refuse(text) => after == m && reply == text,
    }
}

/// The indices of the sessions whose ids start with a text.
fn matching(list: &Vec<Session>, p: &str) -> (r: Vec<usize>)
    ensures
        r.len() == with_prefix(models(list@), p@).len(),
        forall|k: int|
            0 <= k < r.len() ==> #[trigger] r[k] < list.len() && models(list@)[r[k] as int]
                == with_prefix(models(list@), p@)[k],
{
    let ghost v = models(list@);
    let ghost pred = |s: SessionModel| p@.is_prefix_of(s.id);
    let mut r: Vec<usize> = Vec::new();
    let mut i: usize = 0;
    proof {
        assert(v.take(0) =~= Seq::empty());
        reveal(Seq::filter);
    }
    while i < list.len()
        invariant
            i <= list.len(),
            v == models(list@),
            pred == (|s: SessionModel| p@.is_prefix_of(s.id)),
            r.len() == v.take(i as int).filter(pred).len(),
            forall|k: int|
                0 <= k < r.len() ==> #[trigger] r[k] < list.len() && v[r[k] as int] == v.take(
                    i as int,
                ).filter(pred)[k],
        decreases list.len() - i,
    {
        proof {
            reveal(Seq::filter);
            assert(v.take(i + 1).drop_last() =~= v.take(i as int));
            assert(v.take(i + 1).last() == v[i as int]);
            assert(v[i as int] == list[i as int]@);
        }
        if starts_with(list[i].id.as_str(), p) {
            r.push(i);
        }
        i += 1;
    }
    assert(v.take(i as int) =~= v);
    r
}

fn switch_to(sessions: &mut SessionManager, key: &str, id: &str) -> (r: Option<String>)
    requires
        old(sessions).well_formed(),
    ensures
        final(sessions).well_formed(),
        r is Some <==> switchable(old(sessions)@, key@, id@),
        r is Some ==> r->0@ == switched_text(old(sessions)@.sessions[id@]) && final(sessions)@
            == switched(old(sessions)@, key@, id@),
        r is None ==> final(sessions)@ == old(sessions)@,
{
    match sessions.switch_session(key, id) {
        Some(s) => {
            let mut r: String = "Switched to: ".to_owned();
            r.append(text_or_else(&s.name, "unnamed"));
            r.append(" [");
            r.append(shorten(s.id.as_str()));
            r.append("]");
            Some(r)
        },
        None => None,
    }
}

/// Switches to a session by its number in the list `shown`, or by the start of
/// its id among those in `list`.
pub fn switch_among(
    sessions: &mut SessionManager,
    key: &str,
    args: &str,
    shown: &Vec<Session>,
    list: &Vec<Session>,
) -> (r: String)
    requires
        old(sessions).well_formed(),
    ensures
        final(sessions).well_formed(),
        picked(
            old(sessions)@,
            final(sessions)@,
            key@,
            pick(old(sessions)@, key@, args@, models(shown@), models(list@)),
            r@,
        ),
{
    let ghost v = models(list@);
    let ghost numbered = models(shown@);
    assert(v.len() == list.len());
    assert(numbered.len() == shown.len());
    let found: Vec<usize> = matching(list, args);
    if let Some(n) = parse_number(args) {
        if n == 0 || n > shown.len() {
            if args.unicode_len() < SHOWN_ID || found.len() == 0 {
                let mut r: String = "Invalid number. ".to_owned();
                let total: String = decimal_of(shown.len() as u64);
                r.append(total.as_str());
                r.append(" sessions total.");
                return r;
            }
        } else {
            assert(numbered[n - 1] == shown[n - 1]@);
            if let Some(r) = switch_to(sessions, key, shown[n - 1].id.as_str()) {
                return r;
            }
        }
    }
    if found.len() == 0 {
        "No matching session found.".to_owned()
    } else if found.len() == 1 {
        let at: usize = found[0];
        assert(v[at as int] == list[at as int]@);
        match switch_to(sessions, key, list[at].id.as_str()) {
            Some(r) => r,
            None => "Switch failed.".to_owned(),
        }
    } else {
        let mut r: String = "Matched ".to_owned();
        let total: String = decimal_of(found.len() as u64);
        r.append(total.as_str());
        r.append(" sessions, please provide a more specific ID.");
        r
    }
}

/// Whether `/switch` did as it was told.
pub open spec fn switch_done(
    m: ManagerModel,
    after: ManagerModel,
    key: Seq<char>,
    args: Seq<char>,
    reply: Seq<char>,
) -> bool {
    if args.len() == 0 {
        after == m && reply == "Usage: /switch <number or id>"@
    } else {
        let v = listing(m, key, None);
        picked(m, after, key, pick(m, key, args, v, v), reply)
    }
}

/// `/switch <number or id>`
pub fn cmd_switch(sessions: &mut SessionManager, key: &str, args: &str) -> (r: String)
    requires
        old(sessions).well_formed(),
    ensures
        final(sessions).well_formed(),
        switch_done(old(sessions)@, final(sessions)@, key@, args@, r@),
{
    if args.is_empty() {
        return "Usage: /switch <number or id>".to_owned();
    }
    let list: Vec<Session> = sessions.list(key);
    switch_among(sessions, key, args, &list, &list)
}

/// Whether `/resume` did as it was told: without an argument it lists the
/// sessions of the agent; with one it switches to the session of that number in
/// that list, or to the one whose id starts so.
pub open spec fn resume_done(
    m: ManagerModel,
    after: ManagerModel,
    key: Seq<char>,
    agent: Seq<char>,
    args: Seq<char>,
    reply: Seq<char>,
) -> bool {
    if args.len() > 0 {
        let shown = listing(m, key, Some(agent));
        picked(m, after, key, pick(m, key, args, shown, listing(m, key, None)), reply)
    } else if listing(m, key, Some(agent)).len() == 0 {
        after == m && reply == "No sessions to resume. Use /new to start one."@
    } else {
        exists|list: Seq<char>| #[trigger]
            list_done(m, after, key, agent, list) && reply == list
                + "\n\nResume one with /resume <number or id>."@
    }
}

/// `/resume [number or id]`
pub fn cmd_resume(sessions: &mut SessionManager, key: &str, agent_name: &str, args: &str) -> (r:
    String)
    requires
        old(sessions).well_formed(),
    ensures
        final(sessions).well_formed(),
        resume_done(old(sessions)@, final(sessions)@, key@, agent_name@, args@, r@),
{
    let list: Vec<Session> = sessions.list_for_agent(key, agent_name);
    if !args.is_empty() {
        let all: Vec<Session> = sessions.list(key);
        return switch_among(sessions, key, args, &list, &all);
    }
    assert(models(list@).len() == list.len());
    if list.len() == 0 {
        return "No sessions to resume. Use /new to start one.".to_owned();
    }
    let mut r: String = cmd_list(sessions, key, agent_name);
    let ghost listing = r@;
    r.append("\n\nResume one with /resume <number or id>.");
    assert(list_done(old(sessions)@, sessions@, key@, agent_name@, listing));
    r
}

/// What `/current` shows.
pub open spec fn current_text(s: SessionModel) -> Seq<char> {
    "Current session\nID: "@ + short(s.id) + "\nName: "@ + shown_name(s) + "\nCreated: "@
        + time_text(s.created_at, "%Y-%m-%d %H:%M"@)
}

/// `/current`
pub fn cmd_current(sessions: &mut SessionManager, key: &str) -> (r: String)
    requires
        old(sessions).well_formed(),
    ensures
        final(sessions).well_formed(),
        ensured(old(sessions)@, key@, final(sessions)@),
        active_session(final(sessions)@, key@) is Some,
        r@ == current_text(active_session(final(sessions)@, key@)->0),
{
    let session: Session = sessions.get_or_create(key);
    let mut r: String = "Current session\nID: ".to_owned();
    r.append(shorten(session.id.as_str()));
    r.append("\nName: ");
    r.append(text_or_else(&session.name, "unnamed"));
    r.append("\nCreated: ");
    let date: String = format_time(session.created_at, "%Y-%m-%d %H:%M");
    r.append(date.as_str());
    r
}

/// Whether `/delete` deleted the active session and opened another one.
pub open spec fn delete_done(
    m: ManagerModel,
    after: ManagerModel,
    key: Seq<char>,
    reply: Seq<char>,
) -> bool {
    exists|before: ManagerModel| #[trigger]
        ensured(m, key, before) && active_session(before, key) is Some && ({
            let id = active_session(before, key)->0.id;
            &&& ensured(deleted(before, key, id), key, after)
            &&& active_session(after, key) is Some
            &&& reply == "Deleted session ["@ + short(id) + "]\nNew session: ["@ + short(
                active_session(after, key)->0.id,
            ) + "]"@
        })
}

/// `/delete`
pub fn cmd_delete(sessions: &mut SessionManager, key: &str) -> (r: String)
    requires
        old(sessions).well_formed(),
    ensures
        final(sessions).well_formed(),
        delete_done(old(sessions)@, final(sessions)@, key@, r@),
{
    let current: Session = sessions.get_or_create(key);
    let ghost before = sessions@;
    let old_id: String = current.id.clone();
    sessions.delete_session(key, old_id.as_str());
    let new_session: Session = sessions.get_or_create(key);
    assert(ensured(old(sessions)@, key@, before));
    let mut r: String = "Deleted session [".to_owned();
    r.append(shorten(old_id.as_str()));
    r.append("]\nNew session: [");
    r.append(shorten(new_session.id.as_str()));
    r.append("]");
    r
}

/// One session in the history.
pub open spec fn history_line(i: int, s: SessionModel, active: Seq<char>) -> Seq<char> {
    let agent_id = or_text(s.agent_session_id, "-"@);
    (if s.id == active {
        "▶"@
    } else {
        "◻"@
    }) + " "@ + decimal((i + 1) as nat) + ". "@ + shown_name(s) + " | "@ + time_text(
        s.updated_at,
        "%m-%d %H:%M"@,
    ) + " | agent:"@ + (if byte_len(agent_id) > 8 {
        short(agent_id)
    } else {
        agent_id
    })
}

/// The history of sessions.
pub open spec fn history_text(v: Seq<SessionModel>, active: Seq<char>) -> Seq<char> {
    joined(
        seq!["Session history:"@] + Seq::new(v.len(), |i: int| history_line(i, v[i], active)),
        "\n"@,
    )
}

/// The history of the given sessions.
pub fn session_history(list: &Vec<Session>, active: &str) -> (r: String)
    requires
        forall|i: int| 0 <= i < list.len() ==> valid_time((#[trigger] list[i]@).updated_at),
    ensures
        r@ == history_text(models(list@), active@),
{
    let ghost v = models(list@);
    let ghost all = Seq::new(v.len(), |i: int| history_line(i, v[i], active@));
    let ghost head = seq!["Session history:"@];
    let mut out: Vec<String> = Vec::new();
    out.push("Session history:".to_owned());
    assert(texts(out@) =~= head + all.take(0));
    let mut i: usize = 0;
    while i < list.len()
        invariant
            i <= list.len(),
            v == models(list@),
            forall|i: int| 0 <= i < list.len() ==> valid_time((#[trigger] list[i]@).updated_at),
            all == Seq::new(v.len(), |i: int| history_line(i, v[i], active@)),
            texts(out@) == head + all.take(i as int),
        decreases list.len() - i,
    {
        let s: &Session = &list[i];
        assert(v[i as int] == s@);
        assert(valid_time(list[i as int]@.updated_at));
        let mut line: String = if same(s.id.as_str(), active) {
            "▶".to_owned()
        } else {
            "◻".to_owned()
        };
        line.append(" ");
        let number: String = decimal_of(i as u64 + 1);
        line.append(number.as_str());
        line.append(". ");
        line.append(text_or_else(&s.name, "unnamed"));
        line.append(" | ");
        let date: String = format_time(s.updated_at, "%m-%d %H:%M");
        line.append(date.as_str());
        line.append(" | agent:");
        let agent_id: &str = text_or_else(&s.agent_session_id, "-");
        if within(agent_id, 8) {
            line.append(agent_id);
        } else {
            line.append(shorten(agent_id));
        }
        proof {
            assert(line@ == all[i as int]);
            lemma_texts_push(out@, line);
            assert((head + all.take(i as int)).push(line@) =~= head + all.take(i + 1));
        }
        out.push(line);
        i += 1;
    }
    assert(all.take(i as int) =~= all);
    join(&out, "\n")
}

/// Whether `/history` replied with the sessions of the key.
pub open spec fn history_done(
    m: ManagerModel,
    after: ManagerModel,
    key: Seq<char>,
    reply: Seq<char>,
) -> bool {
    let v = listing(m, key, None);
    if v.len() == 0 {
        after == m && reply == "No sessions found."@
    } else {
        ensured(m, key, after) && active_session(after, key) is Some && reply == history_text(
            v,
            active_session(after, key)->0.id,
        )
    }
}

/// `/history`
pub fn cmd_history(sessions: &mut SessionManager, key: &str) -> (r: String)
    requires
        old(sessions).well_formed(),
    ensures
        final(sessions).well_formed(),
        history_done(old(sessions)@, final(sessions)@, key@, r@),
{
    let all: Vec<Session> = sessions.list(key);
    assert(models(all@).len() == all.len());
    if all.len() == 0 {
        return "No sessions found.".to_owned();
    }
    let current: Session = sessions.get_or_create(key);
    proof {
        lemma_listing_valid(old(sessions)@, key@, None, all@);
    }
    session_history(&all, current.id.as_str())
}

/// Whether `/name` named the session, or told its name.
pub open spec fn name_done(
    m: ManagerModel,
    after: ManagerModel,
    key: Seq<char>,
    args: Seq<char>,
    reply: Seq<char>,
) -> bool {
    let name = trimmed(args);
    if name.len() == 0 {
        ensured(m, key, after) && active_session(after, key) is Some && reply
            == "Current session name: "@ + or_text(
            active_session(after, key)->0.name,
            "(unnamed)"@,
        ) + "\nUsage: /name <new name>"@
    } else {
        after == renamed(m, key, name) && reply == if active_session(m, key) is Some {
            "Session renamed to: "@ + name
        } else {
            "No active session to rename."@
        }
    }
}

/// `/name [name]`
pub fn cmd_name(sessions: &mut SessionManager, key: &str, args: &str) -> (r: String)
    requires
        old(sessions).well_formed(),
    ensures
        final(sessions).well_formed(),
        name_done(old(sessions)@, final(sessions)@, key@, args@, r@),
{
    let name: &str = trim(args);
    if name.is_empty() {
        let session: Session = sessions.get_or_create(key);
        let mut r: String = "Current session name: ".to_owned();
        r.append(text_or_else(&session.name, "(unnamed)"));
        r.append("\nUsage: /name <new name>");
        return r;
    }
    if sessions.rename_session(key, name) {
        let mut r: String = "Session renamed to: ".to_owned();
        r.append(name);
        r
    } else {
        "No active session to rename.".to_owned()
    }
}

// ---------------------------------------------------------------------------
// Errands
// ---------------------------------------------------------------------------

/// Which way sessions are synchronised.
#[derive(PartialEq, Eq, Structural, Clone, Copy, Debug)]
pub enum Direction {
    Pull,
    Push,
}

/// What a command needs from outside. `S` is a text.
pub enum Errand<S> {
    /// Schedule a job; answered by [`cron_added`].
    AddJob { expr: S, prompt: S, description: S },
    /// List the jobs; answered by [`cron_listed`].
    ListJobs,
    /// Delete a job; answered by [`cron_deleted`].
    DeleteJob(S),
    /// Look at a directory; answered by [`change_dir`].
    ProbeDir(S),
    /// List the tmux sessions; answered by [`attach_listed`].
    ListTmux,
    /// Synchronise; answered by [`synced`].
    Sync(Direction),
}

/// What a command comes to.
pub enum Answer<S> {
    Reply(S),
    Ask(Errand<S>),
}

/// An answer by its contents.
pub open spec fn shown_answer(a: Answer<String>) -> Answer<Seq<char>> {
    match a {
        Answer::Reply(s) => Answer::Reply(s@),
        Answer::Ask(Errand::AddJob { expr, prompt, description }) => Answer::Ask(
            Errand::AddJob { expr: expr@, prompt: prompt@, description: description@ },
        ),
        Answer::Ask(Errand::ListJobs) => Answer::Ask(Errand::ListJobs),
        Answer::Ask(Errand::DeleteJob(s)) => Answer::Ask(Errand::DeleteJob(s@)),
        Answer::Ask(Errand::ProbeDir(s)) => Answer::Ask(Errand::ProbeDir(s@)),
        Answer::Ask(Errand::ListTmux) => Answer::Ask(Errand::ListTmux),
        Answer::Ask(Errand::Sync(d)) => Answer::Ask(Errand::Sync(d)),
    }
}

// ---------------------------------------------------------------------------
// Scheduled jobs
// ---------------------------------------------------------------------------

/// A text in at most `n` pieces, cut at white space; the last piece is
/// whatever is left.
pub open spec fn pieces(s: Seq<char>, n: nat) -> Seq<Seq<char>>
    decreases n,
{
    if n <= 1 || word_len(s) >= s.len() {
        seq![s]
    } else {
        seq![first_word(s)] + pieces(after_word(s), (n - 1) as nat)
    }
}

/// The pieces of a text, for at least one piece.
pub fn cut_pieces(s: &str, n: usize) -> (r: Vec<String>)
    requires
        n >= 1,
    ensures
        texts(r@) == pieces(s@, n as nat),
{
    let mut r: Vec<String> = Vec::new();
    let mut rest: &str = s;
    let mut left: usize = n;
    assert(texts(r@) + pieces(s@, n as nat) =~= pieces(s@, n as nat));
    loop
        invariant
            left >= 1,
            pieces(s@, n as nat) == texts(r@) + pieces(rest@, left as nat),
        ensures
            pieces(s@, n as nat) == texts(r@) + seq![rest@],
        decreases left,
    {
        let (word, more): (&str, &str) = cut_word(rest);
        proof {
            lemma_word_len_bounds(rest@);
        }
        if left == 1 || word.unicode_len() == rest.unicode_len() {
            break;
        }
        let w: String = word.to_owned();
        proof {
            lemma_texts_push(r@, w);
            let tail = pieces(more@, (left - 1) as nat);
            assert(texts(r@) + (seq![w@] + tail) =~= texts(r@).push(w@) + tail);
        }
        r.push(w);
        rest = more;
        left -= 1;
    }
    let w: String = rest.to_owned();
    proof {
        lemma_texts_push(r@, w);
        assert(texts(r@) + seq![w@] =~= texts(r@).push(w@));
    }
    r.push(w);
    r
}

/// What `/cron` comes to.
pub open spec fn cron_answer(args: Seq<char>) -> Answer<Seq<char>> {
    let sub = first_word(args);
    let rest = trimmed(after_word(args));
    if sub == "add"@ {
        let t = pieces(rest, 6);
        if t.len() < 6 {
            Answer::Reply(
                "Usage: /cron add <min> <hour> <day> <month> <weekday> <prompt>\nExample: /cron add 0 6 * * * Good morning summary"@,
            )
        } else {
            Answer::Ask(
                Errand::AddJob {
                    expr: t[0] + " "@ + t[1] + " "@ + t[2] + " "@ + t[3] + " "@ + t[4] + " *"@,
                    prompt: t[5],
                    description: clipped(t[5], 30, "..."@),
                },
            )
        }
    } else if sub == "list"@ {
        Answer::Ask(Errand::ListJobs)
    } else if sub == "del"@ || sub == "delete"@ || sub == "rm"@ {
        if rest.len() == 0 {
            Answer::Reply("Usage: /cron del <id>"@)
        } else {
            Answer::Ask(Errand::DeleteJob(rest))
        }
    } else {
        Answer::Reply(
            "Usage: /cron add|list|del\n/cron add <min> <hour> <day> <month> <weekday> <prompt>\n/cron list\n/cron del <id>"@,
        )
    }
}

/// `/cron add|list|del`
pub fn cmd_cron(args: &str) -> (r: Answer<String>)
    ensures
        shown_answer(r) == cron_answer(args@),
{
    let (sub, more): (&str, &str) = cut_word(args);
    let rest: &str = trim(more);
    if same(sub, "add") {
        let t: Vec<String> = cut_pieces(rest, 6);
        let ghost p = pieces(rest@, 6);
        assert(p.len() == t.len());
        if t.len() < 6 {
            return Answer::Reply(
                "Usage: /cron add <min> <hour> <day> <month> <weekday> <prompt>\nExample: /cron add 0 6 * * * Good morning summary".to_owned(),
            );
        }
        assert(p[0] == t[0]@ && p[1] == t[1]@ && p[2] == t[2]@ && p[3] == t[3]@ && p[4] == t[4]@
            && p[5] == t[5]@);
        let mut expr: String = t[0].clone();
        expr.append(" ");
        expr.append(t[1].as_str());
        expr.append(" ");
        expr.append(t[2].as_str());
        expr.append(" ");
        expr.append(t[3].as_str());
        expr.append(" ");
        expr.append(t[4].as_str());
        expr.append(" *");
        Answer::Ask(
            Errand::AddJob {
                expr,
                prompt: t[5].clone(),
                description: clip(t[5].as_str(), 30, "..."),
            },
        )
    } else if same(sub, "list") {
        Answer::Ask(Errand::ListJobs)
    } else if same(sub, "del") || same(sub, "delete") || same(sub, "rm") {
        if rest.is_empty() {
            Answer::Reply("Usage: /cron del <id>".to_owned())
        } else {
            Answer::Ask(Errand::DeleteJob(rest.to_owned()))
        }
    } else {
        Answer::Reply(
            "Usage: /cron add|list|del\n/cron add <min> <hour> <day> <month> <weekday> <prompt>\n/cron list\n/cron del <id>".to_owned(),
        )
    }
}

/// A scheduled job.
#[derive(Debug)]
pub struct CronJob {
    pub id: String,
    pub cron_expr: String,
    pub prompt: String,
    pub description: String,
    pub enabled: bool,
}

/// What is said of a job that was to be added.
pub open spec fn added_text(job: Result<CronJob, String>) -> Seq<char> {
    match job {
        Ok(j) => "Cron job added:\nID: "@ + j.id@ + "\nSchedule: "@ + j.cron_expr@ + "\nPrompt: "@
            + j.prompt@,
        Err(e) => "Failed to add cron job: "@ + e@,
    }
}

/// The reply to a job that was to be scheduled.
pub fn cron_added(job: &Result<CronJob, String>) -> (r: String)
    ensures
        r@ == added_text(*job),
{
    match job {
        Ok(j) => {
            let mut r: String = "Cron job added:\nID: ".to_owned();
            r.append(j.id.as_str());
            r.append("\nSchedule: ");
            r.append(j.cron_expr.as_str());
            r.append("\nPrompt: ");
            r.append(j.prompt.as_str());
            r
        },
        Err(e) => {
            let mut r: String = "Failed to add cron job: ".to_owned();
            r.append(e.as_str());
            r
        },
    }
}

/// One job in the list.
pub open spec fn job_line(i: int, j: CronJob) -> Seq<char> {
    decimal((i + 1) as nat) + ". ["@ + j.id@ + "] "@ + (if j.enabled {
        "ON"@
    } else {
        "OFF"@
    }) + " | "@ + j.cron_expr@ + " | "@ + j.description@
}

/// The list of jobs.
pub open spec fn jobs_text(jobs: Seq<CronJob>) -> Seq<char> {
    if jobs.len() == 0 {
        "No cron jobs configured."@
    } else {
        joined(Seq::new(jobs.len(), |i: int| job_line(i, jobs[i])), "\n"@)
    }
}

/// The reply to a list of jobs.
pub fn cron_listed(jobs: &Vec<CronJob>) -> (r: String)
    ensures
        r@ == jobs_text(jobs@),
{
    if jobs.len() == 0 {
        return "No cron jobs configured.".to_owned();
    }
    let ghost all = Seq::new(jobs@.len(), |i: int| job_line(i, jobs@[i]));
    let mut out: Vec<String> = Vec::new();
    let mut i: usize = 0;
    while i < jobs.len()
        invariant
            i <= jobs.len(),
            all == Seq::new(jobs@.len(), |i: int| job_line(i, jobs@[i])),
            texts(out@) == all.take(i as int),
        decreases jobs.len() - i,
    {
        let j: &CronJob = &jobs[i];
        let mut line: String = decimal_of(i as u64 + 1);
        line.append(". [");
        line.append(j.id.as_str());
        line.append("] ");
        if j.enabled {
            line.append("ON");
        } else {
            line.append("OFF");
        }
        line.append(" | ");
        line.append(j.cron_expr.as_str());
        line.append(" | ");
        line.append(j.description.as_str());
        proof {
            assert(line@ == all[i as int]);
            lemma_texts_push(out@, line);
            assert(all.take(i as int).push(line@) =~= all.take(i + 1));
        }
        out.push(line);
        i += 1;
    }
    assert(all.take(i as int) =~= all);
    join(&out, "\n")
}

/// What is said of a job that was to be deleted.
pub open spec fn gone_text(id: Seq<char>, deleted: bool) -> Seq<char> {
    "Cron job "@ + id + if deleted {
        " deleted."@
    } else {
        " not found."@
    }
}

/// The reply to a job that was to be deleted.
pub fn cron_deleted(id: &str, deleted: bool) -> (r: String)
    ensures
        r@ == gone_text(id@, deleted),
{
    let mut r: String = "Cron job ".to_owned();
    r.append(id);
    if deleted {
        r.append(" deleted.");
    } else {
        r.append(" not found.");
    }
    r
}

// ---------------------------------------------------------------------------
// Directories
// ---------------------------------------------------------------------------

/// A path below another one; an absolute path stands for itself.
pub open spec fn path_join(base: Seq<char>, path: Seq<char>) -> Seq<char> {
    if "/"@.is_prefix_of(path) {
        path
    } else if base.len() == 0 || base.last() == '/' {
        base + path
    } else {
        base + "/"@ + path
    }
}

/// A path below another one.
pub fn join_path(base: &str, path: &str) -> (r: String)
    ensures
        r@ == path_join(base@, path@),
{
    if starts_with(path, "/") {
        return path.to_owned();
    }
    let n: usize = base.unicode_len();
    let mut r: String = base.to_owned();
    if n > 0 && base.get_char(n - 1) != '/' {
        r.append("/");
    }
    r.append(path);
    r
}

/// Whether the directory of a key was set, and its agent is to go on there.
pub open spec fn moved(m: ManagerModel, after: ManagerModel, key: Seq<char>, dir: Seq<char>) -> bool {
    exists|m1: ManagerModel, m2: ManagerModel, at1: Timestamp, at2: Timestamp|
        ensured(m, key, m1) && m2 == #[trigger] with_work_dir(m1, key, dir, at1) && after
            == #[trigger] with_agent_session(m2, key, CONTINUE_SESSION@, at2)
}

/// Whether `/dir` did as it was told.
pub open spec fn dir_done(
    config: ProjectConfig,
    m: ManagerModel,
    after: ManagerModel,
    key: Seq<char>,
    args: Seq<char>,
    answer: Answer<Seq<char>>,
) -> bool {
    let dir = work_dir_of(m, key);
    if args.len() == 0 {
        after == m && answer == Answer::Reply(
            "Work directory: "@ + or_text(dir, config.work_dir@) + "\n(source: "@ + (if dir is Some {
                "session override"@
            } else {
                "config default"@
            }) + ")"@,
        )
    } else if args == "reset"@ {
        moved(m, after, key, config.work_dir@) && answer == Answer::Reply(
            "📁 已切换回默认目录: "@ + config.work_dir@,
        )
    } else {
        after == m && answer == Answer::<Seq<char>>::Ask(
            Errand::ProbeDir(path_join(or_text(dir, config.work_dir@), args)),
        )
    }
}

fn move_to(sessions: &mut SessionManager, key: &str, dir: &str)
    requires
        old(sessions).well_formed(),
    ensures
        final(sessions).well_formed(),
        moved(old(sessions)@, final(sessions)@, key@, dir@),
{
    let ghost m = sessions@;
    sessions.set_work_dir(key, dir);
    let ghost m2 = sessions@;
    let ghost (m1, at1) = choose|m1: ManagerModel, at: Timestamp|
        ensured(m, key@, m1) && valid_time(at) && m2 == #[trigger] with_work_dir(
            m1,
            key@,
            dir@,
            at,
        );
    sessions.set_agent_session_id(key, CONTINUE_SESSION);
    proof {
        let at2 = choose|at: Timestamp|
            valid_time(at) && sessions@ == #[trigger] with_agent_session(
                m2,
                key@,
                CONTINUE_SESSION@,
                at,
            );
        assert(m2 == with_work_dir(m1, key@, dir@, at1));
        assert(sessions@ == with_agent_session(m2, key@, CONTINUE_SESSION@, at2));
    }
}

/// `/dir [path]`
pub fn cmd_dir(config: &ProjectConfig, sessions: &mut SessionManager, key: &str, args: &str) -> (r:
    Answer<String>)
    requires
        old(sessions).well_formed(),
    ensures
        final(sessions).well_formed(),
        dir_done(*config, old(sessions)@, final(sessions)@, key@, args@, shown_answer(r)),
{
    let session_dir: Option<String> = sessions.get_work_dir(key);
    let base: &str = text_or_else(&session_dir, config.work_dir.as_str());
    if args.is_empty() {
        let mut r: String = "Work directory: ".to_owned();
        r.append(base);
        r.append("\n(source: ");
        if session_dir.is_some() {
            r.append("session override");
        } else {
            r.append("config default");
        }
        r.append(")");
        return Answer::Reply(r);
    }
    if same(args, "reset") {
        move_to(sessions, key, config.work_dir.as_str());
        let mut r: String = "📁 已切换回默认目录: ".to_owned();
        r.append(config.work_dir.as_str());
        return Answer::Reply(r);
    }
    Answer::Ask(Errand::ProbeDir(join_path(base, args)))
}

/// What stands at a path.
pub enum DirProbe {
    Missing,
    NotADirectory,
    /// A directory, by its canonical path.
    Directory(String),
}

/// What is said of a directory that was to be changed to.
pub open spec fn place_text(resolved: Seq<char>, probe: DirProbe) -> Seq<char> {
    match probe {
        DirProbe::Missing => "Path does not exist: "@ + resolved,
        DirProbe::NotADirectory => "Not a directory: "@ + resolved,
        DirProbe::Directory(d) => "📁 已切换到: "@ + d@,
    }
}

/// The reply to a look at the directory `resolved`, which is moved to where it
/// is one.
pub fn change_dir(sessions: &mut SessionManager, key: &str, resolved: &str, probe: &DirProbe) -> (r:
    String)
    requires
        old(sessions).well_formed(),
    ensures
        final(sessions).well_formed(),
        match *probe {
            DirProbe::Missing | DirProbe::NotADirectory => final(sessions)@ == old(sessions)@,
            DirProbe::Directory(d) => moved(old(sessions)@, final(sessions)@, key@, d@),
        },
        r@ == place_text(resolved@, *probe),
{
    match probe {
        DirProbe::Missing => {
            let mut r: String = "Path does not exist: ".to_owned();
            r.append(resolved);
            r
        },
        DirProbe::NotADirectory => {
            let mut r: String = "Not a directory: ".to_owned();
            r.append(resolved);
            r
        },
        DirProbe::Directory(d) => {
            move_to(sessions, key, d.as_str());
            let mut r: String = "📁 已切换到: ".to_owned();
            r.append(d.as_str());
            r
        },
    }
}

// ---------------------------------------------------------------------------
// Tmux sessions
// ---------------------------------------------------------------------------

/// Whether a key was bound to a tmux session, with nothing left to resume.
pub open spec fn bound(m: ManagerModel, after: ManagerModel, key: Seq<char>, tmux: Seq<char>) -> bool {
    exists|m1: ManagerModel, m2: ManagerModel, at1: Timestamp, at2: Timestamp|
        ensured(m, key, m1) && m2 == #[trigger] with_tmux(m1, key, tmux, at1) && after
            == #[trigger] with_agent_session(m2, key, Seq::empty(), at2)
}

/// `/attach [tmux session]`
pub fn cmd_attach(sessions: &mut SessionManager, key: &str, args: &str) -> (r: Answer<String>)
    requires
        old(sessions).well_formed(),
    ensures
        final(sessions).well_formed(),
        trimmed(args@).len() == 0 ==> final(sessions)@ == old(sessions)@ && shown_answer(r)
            == Answer::<Seq<char>>::Ask(Errand::ListTmux),
        trimmed(args@).len() > 0 ==> bound(
            old(sessions)@,
            final(sessions)@,
            key@,
            trimmed(args@),
        ) && shown_answer(r) == Answer::Reply("🔗 本频道已绑定 tmux 会话: "@ + trimmed(args@)),
{
    let target: &str = trim(args);
    if target.is_empty() {
        return Answer::Ask(Errand::ListTmux);
    }
    let ghost m = sessions@;
    sessions.set_tmux_session(key, target);
    let ghost m2 = sessions@;
    let ghost (m1, at1) = choose|m1: ManagerModel, at: Timestamp|
        ensured(m, key@, m1) && valid_time(at) && m2 == #[trigger] with_tmux(
            m1,
            key@,
            target@,
            at,
        );
    sessions.set_agent_session_id(key, "");
    proof {
        reveal_strlit("");
        assert(""@ =~= Seq::<char>::empty());
        let at2 = choose|at: Timestamp|
            valid_time(at) && sessions@ == #[trigger] with_agent_session(m2, key@, ""@, at);
        assert(m2 == with_tmux(m1, key@, target@, at1));
        assert(sessions@ == with_agent_session(m2, key@, Seq::empty(), at2));
    }
    let mut r: String = "🔗 本频道已绑定 tmux 会话: ".to_owned();
    r.append(target);
    Answer::Reply(r)
}

/// The names in the output of `tmux list-sessions`: one on each line, trimmed,
/// without the empty ones.
pub open spec fn tmux_names(output: Seq<char>) -> Seq<Seq<char>> {
    lines(output).map_values(|l: Seq<char>| trimmed(l)).filter(|l: Seq<char>| l.len() > 0)
}

/// The names in the output of `tmux list-sessions`.
pub fn parse_tmux_names(output: &str) -> (r: Vec<String>)
    ensures
        texts(r@) == tmux_names(output@),
{
    let all: Vec<String> = lines_of(output);
    let ghost t = lines(output@).map_values(|l: Seq<char>| trimmed(l));
    let ghost pred = |l: Seq<char>| l.len() > 0;
    let mut r: Vec<String> = Vec::new();
    let mut i: usize = 0;
    proof {
        assert(texts(all@).len() == all.len());
        reveal(Seq::filter);
        assert(t.take(0) =~= Seq::empty());
        assert(texts(r@) =~= t.take(0).filter(pred));
    }
    while i < all.len()
        invariant
            i <= all.len(),
            texts(all@) == lines(output@),
            t == lines(output@).map_values(|l: Seq<char>| trimmed(l)),
            t.len() == all.len(),
            pred == (|l: Seq<char>| l.len() > 0),
            texts(r@) == t.take(i as int).filter(pred),
        decreases all.len() - i,
    {
        let name: String = trim(all[i].as_str()).to_owned();
        proof {
            reveal(Seq::filter);
            assert(lines(output@)[i as int] == texts(all@)[i as int]);
            assert(t[i as int] == name@);
            assert(t.take(i + 1).drop_last() =~= t.take(i as int));
            assert(t.take(i + 1).last() == name@);
            lemma_texts_push(r@, name);
        }
        if !name.as_str().is_empty() {
            r.push(name);
        }
        i += 1;
    }
    assert(t.take(i as int) =~= t);
    r
}

/// The tmux sessions that there are, as far as they could be listed, and the one
/// that a key is bound to.
pub open spec fn attachable_text(
    list: Option<Seq<Seq<char>>>,
    tmux: Option<Seq<char>>,
) -> Seq<char> {
    let current = match tmux {
        Some(t) => "\n当前已绑定: "@ + t,
        None => Seq::empty(),
    };
    match list {
        Some(l) => if l.len() > 0 {
            "可 attach 的 tmux 会话:\n"@ + joined(l, "\n"@)
                + "\n\n用 /attach <会话名> 绑定本频道。"@ + current
        } else {
            "没有运行中的 tmux 会话。"@ + current
        },
        None => "无法列出 tmux 会话(tmux 未运行?)。"@ + current,
    }
}

/// The reply to a list of the tmux sessions: nothing where tmux could not be
/// run.
pub fn attach_listed(sessions: &SessionManager, key: &str, list: &Option<Vec<String>>) -> (r: String)
    requires
        sessions.well_formed(),
    ensures
        r@ == attachable_text(
            match *list {
                Some(l) => Some(texts(l@)),
                None => None,
            },
            match active_session(sessions@, key@) {
                Some(s) => s.tmux_session,
                None => None,
            },
        ),
{
    let current: String = match sessions.get_tmux_session(key) {
        Some(t) => {
            let mut c: String = "\n当前已绑定: ".to_owned();
            c.append(t.as_str());
            c
        },
        None => String::new(),
    };
    let mut r: String = match list {
        Some(l) => if l.len() > 0 {
            let mut r: String = "可 attach 的 tmux 会话:\n".to_owned();
            let names: String = join(l, "\n");
            r.append(names.as_str());
            r.append("\n\n用 /attach <会话名> 绑定本频道。");
            r
        } else {
            "没有运行中的 tmux 会话。".to_owned()
        },
        None => "无法列出 tmux 会话(tmux 未运行?)。".to_owned(),
    };
    r.append(current.as_str());
    r
}

// ---------------------------------------------------------------------------
// Synchronisation
// ---------------------------------------------------------------------------

/// What `/sync` comes to.
pub open spec fn sync_answer(config: ProjectConfig, args: Seq<char>) -> Answer<Seq<char>> {
    let way = trimmed(args);
    if config.sync_auto is None {
        Answer::Reply(
            "Sync not configured.\nAdd to config.yaml:\n\nsync:\n  remote: \"your-mac:~/."@
                + config.program@ + "/\""@,
        )
    } else if way.len() == 0 || way == "pull"@ {
        Answer::Ask(Errand::Sync(Direction::Pull))
    } else if way == "push"@ {
        Answer::Ask(Errand::Sync(Direction::Push))
    } else {
        Answer::Reply("Unknown sync direction: "@ + way + "\nUsage: /sync [pull|push]"@)
    }
}

/// `/sync [pull|push]`
pub fn cmd_sync(config: &ProjectConfig, args: &str) -> (r: Answer<String>)
    ensures
        shown_answer(r) == sync_answer(*config, args@),
{
    if config.sync_auto.is_none() {
        let mut r: String = "Sync not configured.\nAdd to config.yaml:\n\nsync:\n  remote: \"your-mac:~/.".to_owned();
        r.append(config.program.as_str());
        r.append("/\"");
        return Answer::Reply(r);
    }
    let way: &str = trim(args);
    if way.is_empty() || same(way, "pull") {
        Answer::Ask(Errand::Sync(Direction::Pull))
    } else if same(way, "push") {
        Answer::Ask(Errand::Sync(Direction::Push))
    } else {
        let mut r: String = "Unknown sync direction: ".to_owned();
        r.append(way);
        r.append("\nUsage: /sync [pull|push]");
        Answer::Reply(r)
    }
}

/// What is said of a synchronisation.
pub open spec fn synced_text(result: Result<String, String>) -> Seq<char> {
    match result {
        Ok(text) => text@,
        Err(e) => "Sync failed: "@ + e@,
    }
}

/// The reply to a synchronisation.
pub fn synced(result: Result<String, String>) -> (r: String)
    ensures
        r@ == synced_text(result),
{
    match result {
        Ok(text) => text,
        Err(e) => {
            let mut r: String = "Sync failed: ".to_owned();
            r.append(e.as_str());
            r
        },
    }
}

// ---------------------------------------------------------------------------
// Dispatch
// ---------------------------------------------------------------------------

/// Whether a command is one of those here.
pub open spec fn built_in(cmd: Seq<char>) -> bool {
    ||| cmd == "help"@
    ||| cmd == "start"@
    ||| cmd == "status"@
    ||| cmd == "new"@
    ||| cmd == "list"@
    ||| cmd == "switch"@
    ||| cmd == "resume"@
    ||| cmd == "current"@
    ||| cmd == "delete"@
    ||| cmd == "model"@
    ||| cmd == "mode"@
    ||| cmd == "cron"@
    ||| cmd == "commands"@
    ||| cmd == "name"@
    ||| cmd == "rename"@
    ||| cmd == "history"@
    ||| cmd == "dir"@
    ||| cmd == "cd"@
    ||| cmd == "attach"@
    ||| cmd == "sync"@
}

/// Whether a command shows sessions of the key.
pub open spec fn shows_sessions(cmd: Seq<char>) -> bool {
    ||| cmd == "status"@
    ||| cmd == "list"@
    ||| cmd == "switch"@
    ||| cmd == "resume"@
    ||| cmd == "current"@
    ||| cmd == "delete"@
    ||| cmd == "history"@
}

fn is_shown_command(cmd: &str) -> (r: bool)
    ensures
        r == shows_sessions(cmd@),
{
    same(cmd, "status") || same(cmd, "list") || same(cmd, "switch") || same(cmd, "resume")
        || same(cmd, "current") || same(cmd, "delete") || same(cmd, "history")
}

/// What a command may read and change.
pub struct Desk {
    pub sessions: ManagerModel,
    pub models: Overrides,
    pub modes: Overrides,
}

/// What a command is called with.
pub struct Call {
    pub cmd: Seq<char>,
    pub args: Seq<char>,
    pub key: Seq<char>,
    pub agent: Seq<char>,
}

pub open spec fn status_done(
    config: ProjectConfig,
    d: Desk,
    after: ManagerModel,
    key: Seq<char>,
    agent: Seq<char>,
    reply: Seq<char>,
) -> bool {
    &&& ensured(d.sessions, key, after)
    &&& active_session(after, key) is Some
    &&& reply == status_text(
        config,
        active_session(after, key)->0,
        agent,
        or_text(override_of(d.modes, key, agent), configured_mode(config, agent)),
        or_text(
            if override_of(d.models, key, agent) is Some {
                override_of(d.models, key, agent)
            } else {
                own_model(config, agent)
            },
            "default"@,
        ),
    )
}

pub open spec fn current_done(
    m: ManagerModel,
    after: ManagerModel,
    key: Seq<char>,
    reply: Seq<char>,
) -> bool {
    &&& ensured(m, key, after)
    &&& active_session(after, key) is Some
    &&& reply == current_text(active_session(after, key)->0)
}

pub open spec fn attach_done(
    m: ManagerModel,
    after: ManagerModel,
    key: Seq<char>,
    args: Seq<char>,
    answer: Answer<Seq<char>>,
) -> bool {
    let target = trimmed(args);
    if target.len() == 0 {
        after == m && answer == Answer::<Seq<char>>::Ask(Errand::ListTmux)
    } else {
        bound(m, after, key, target) && answer == Answer::Reply(
            "🔗 本频道已绑定 tmux 会话: "@ + target,
        )
    }
}

/// Whether the sessions and the answer after a command that leaves the chosen
/// models and modes alone are right.
pub open spec fn session_command_done(
    config: ProjectConfig,
    d: Desk,
    after: ManagerModel,
    call: Call,
    answer: Answer<Seq<char>>,
) -> bool {
    let m = d.sessions;
    let (cmd, args, key, agent) = (call.cmd, call.args, call.key, call.agent);
    if cmd == "dir"@ || cmd == "cd"@ {
        dir_done(config, m, after, key, args, answer)
    } else if cmd == "attach"@ {
        attach_done(m, after, key, args, answer)
    } else {
        answer matches Answer::Reply(reply) && if cmd == "status"@ {
            status_done(config, d, after, key, agent, reply)
        } else if cmd == "new"@ {
            new_done(m, after, key, agent, args, reply)
        } else if cmd == "list"@ {
            list_done(m, after, key, agent, reply)
        } else if cmd == "switch"@ {
            switch_done(m, after, key, args, reply)
        } else if cmd == "resume"@ {
            resume_done(m, after, key, agent, args, reply)
        } else if cmd == "current"@ {
            current_done(m, after, key, reply)
        } else if cmd == "delete"@ {
            delete_done(m, after, key, reply)
        } else if cmd == "history"@ {
            history_done(m, after, key, reply)
        } else {
            name_done(m, after, key, args, reply)
        }
    }
}

/// Whether a command is one of those that read or change sessions.
pub open spec fn on_sessions(cmd: Seq<char>) -> bool {
    shows_sessions(cmd) || cmd == "new"@ || cmd == "name"@ || cmd == "rename"@ || cmd == "dir"@
        || cmd == "cd"@ || cmd == "attach"@
}

/// Whether what a command changed and answered is right.
pub open spec fn command_done(
    config: ProjectConfig,
    commands: Seq<CommandConfig>,
    d: Desk,
    after: Desk,
    call: Call,
    answer: Answer<Seq<char>>,
) -> bool {
    let (cmd, args, key, agent) = (call.cmd, call.args, call.key, call.agent);
    if on_sessions(cmd) {
        &&& session_command_done(config, d, after.sessions, call, answer)
        &&& after == (Desk { sessions: after.sessions, ..d })
    } else if cmd == "model"@ {
        &&& answer == Answer::Reply(model_reply(config, d.models, key, agent, args))
        &&& after == if args.len() == 0 {
            d
        } else {
            Desk { models: d.models.insert((key, agent), args), ..d }
        }
    } else if cmd == "mode"@ {
        &&& answer == Answer::Reply(mode_reply(config, d.modes, key, agent, args))
        &&& after == if known_mode(args) {
            Desk { modes: d.modes.insert((key, agent), args), ..d }
        } else {
            d
        }
    } else {
        &&& after == d
        &&& answer == if cmd == "cron"@ {
            cron_answer(args)
        } else if cmd == "commands"@ {
            Answer::Reply(commands_text(commands))
        } else if cmd == "sync"@ {
            sync_answer(config, args)
        } else {
            Answer::Reply(help_text(commands))
        }
    }
}

fn session_command(
    cmd: &str,
    args: &str,
    config: &ProjectConfig,
    sessions: &mut SessionManager,
    session_key: &str,
    agent_name: &str,
    model_override: &PairTable,
    mode_override: &PairTable,
) -> (r: Answer<String>)
    requires
        old(sessions).well_formed(),
        on_sessions(cmd@),
    ensures
        final(sessions).well_formed(),
        session_command_done(
            *config,
            (Desk {
                sessions: old(sessions)@,
                models: model_override@,
                modes: mode_override@,
            }),
            final(sessions)@,
            (Call { cmd: cmd@, args: args@, key: session_key@, agent: agent_name@ }),
            shown_answer(r),
        ),
{
    if same(cmd, "dir") || same(cmd, "cd") {
        cmd_dir(config, sessions, session_key, args)
    } else if same(cmd, "attach") {
        cmd_attach(sessions, session_key, args)
    } else if same(cmd, "status") {
        Answer::Reply(
            cmd_status(config, sessions, session_key, agent_name, model_override, mode_override),
        )
    } else if same(cmd, "new") {
        Answer::Reply(cmd_new(sessions, session_key, agent_name, args))
    } else if same(cmd, "list") {
        Answer::Reply(cmd_list(sessions, session_key, agent_name))
    } else if same(cmd, "switch") {
        Answer::Reply(cmd_switch(sessions, session_key, args))
    } else if same(cmd, "resume") {
        Answer::Reply(cmd_resume(sessions, session_key, agent_name, args))
    } else if same(cmd, "current") {
        Answer::Reply(cmd_current(sessions, session_key))
    } else if same(cmd, "delete") {
        Answer::Reply(cmd_delete(sessions, session_key))
    } else if same(cmd, "history") {
        Answer::Reply(cmd_history(sessions, session_key))
    } else {
        Answer::Reply(cmd_name(sessions, session_key, args))
    }
}

/// Carries out a built-in command; gives nothing where it is none.
pub fn dispatch(
    cmd: &str,
    args: &str,
    config: &ProjectConfig,
    sessions: &mut SessionManager,
    session_key: &str,
    agent_name: &str,
    model_override: &mut PairTable,
    mode_override: &mut PairTable,
    custom_commands: &Vec<CommandConfig>,
) -> (r: Option<Answer<String>>)
    requires
        old(sessions).well_formed(),
    ensures
        final(sessions).well_formed(),
        r is Some <==> built_in(cmd@),
        r is None ==> final(sessions)@ == old(sessions)@ && final(model_override)@ == old(
            model_override,
        )@ && final(mode_override)@ == old(mode_override)@,
        r is Some ==> command_done(
            *config,
            custom_commands@,
            (Desk {
                sessions: old(sessions)@,
                models: old(model_override)@,
                modes: old(mode_override)@,
            }),
            (Desk {
                sessions: final(sessions)@,
                models: final(model_override)@,
                modes: final(mode_override)@,
            }),
            (Call { cmd: cmd@, args: args@, key: session_key@, agent: agent_name@ }),
            shown_answer(r->0),
        ),
{
    proof {
        lemma_command_names();
    }
    if is_shown_command(cmd) || same(cmd, "new") || same(cmd, "name") || same(cmd, "rename")
        || same(cmd, "dir") || same(cmd, "cd") || same(cmd, "attach") {
        return Some(
            session_command(
                cmd,
                args,
                config,
                sessions,
                session_key,
                agent_name,
                model_override,
                mode_override,
            ),
        );
    }
    if same(cmd, "model") {
        return Some(
            Answer::Reply(cmd_model(config, session_key, agent_name, model_override, args)),
        );
    }
    if same(cmd, "mode") {
        return Some(
            Answer::Reply(cmd_mode(config, session_key, agent_name, mode_override, args)),
        );
    }
    if same(cmd, "cron") {
        Some(cmd_cron(args))
    } else if same(cmd, "commands") {
        Some(Answer::Reply(cmd_list_commands(custom_commands)))
    } else if same(cmd, "sync") {
        Some(cmd_sync(config, args))
    } else if same(cmd, "help") || same(cmd, "start") {
        Some(Answer::Reply(cmd_help(custom_commands)))
    } else {
        None
    }
}

/// No two of the commands that keep the sessions as they are share a name.
proof fn lemma_command_names()
    ensures
        "model"@ != "mode"@,
        "cron"@ != "commands"@,
        "cron"@ != "sync"@,
        "commands"@ != "sync"@,
{
    reveal_strlit("model");
    reveal_strlit("mode");
    reveal_strlit("cron");
    reveal_strlit("commands");
    reveal_strlit("sync");
    assert("model"@.len() != "mode"@.len());
    assert("cron"@.len() != "commands"@.len());
    assert("commands"@.len() != "sync"@.len());
    assert("cron"@[0] != "sync"@[0]);
}

// ---------------------------------------------------------------------------
// Laws
// ---------------------------------------------------------------------------

/// A model that was chosen is the one that is shown, until another one is
/// chosen, and only for its key and agent.
pub proof fn law_chosen_model_is_shown(
    config: ProjectConfig,
    o: Overrides,
    key: Seq<char>,
    agent: Seq<char>,
    model: Seq<char>,
    other_key: Seq<char>,
    other_agent: Seq<char>,
)
    requires
        model.len() > 0,
    ensures
        model_reply(config, o.insert((key, agent), model), key, agent, Seq::empty())
            == "Current model: "@ + model + " ("@ + "override"@ + ") [agent: "@ + agent + "]"@,
        (other_key, other_agent) != (key, agent) ==> model_reply(
            config,
            o.insert((key, agent), model),
            other_key,
            other_agent,
            Seq::empty(),
        ) == model_reply(config, o, other_key, other_agent, Seq::empty()),
{
}

/// A mode that is none of the known ones is never set.
pub proof fn law_unknown_mode_is_refused(
    config: ProjectConfig,
    commands: Seq<CommandConfig>,
    d: Desk,
    after: Desk,
    call: Call,
    answer: Answer<Seq<char>>,
)
    requires
        command_done(config, commands, d, after, call, answer),
        call.cmd == "mode"@,
        !known_mode(call.args),
    ensures
        after == d,
{
    lemma_command_names();
    reveal_strlit("mode");
    reveal_strlit("status");
    reveal_strlit("list");
    reveal_strlit("switch");
    reveal_strlit("resume");
    reveal_strlit("current");
    reveal_strlit("delete");
    reveal_strlit("history");
    reveal_strlit("new");
    reveal_strlit("name");
    reveal_strlit("rename");
    reveal_strlit("dir");
    reveal_strlit("cd");
    reveal_strlit("attach");
    assert("mode"@[0] != "name"@[0]);
    assert("mode"@[0] != "list"@[0]);
}

/// `/attach` binds the key to the tmux session, and leaves nothing to resume;
/// another key, which has another session, stays bound as it was.
pub proof fn law_attach_binds_the_channel(
    m: ManagerModel,
    after: ManagerModel,
    key: Seq<char>,
    tmux: Seq<char>,
    other: Seq<char>,
)
    requires
        consistent(m),
        bound(m, after, key, tmux),
        other != key,
        active_session(m, other) is Some,
        after.active[key] != m.active[other],
    ensures
        active_session(after, key) is Some,
        active_session(after, key)->0.tmux_session == Some(tmux),
        active_session(after, key)->0.agent_session_id is None,
        active_session(after, other) == active_session(m, other),
{
    let (m1, m2, at1, at2) = choose|
        m1: ManagerModel,
        m2: ManagerModel,
        at1: Timestamp,
        at2: Timestamp,
    |
        ensured(m, key, m1) && m2 == #[trigger] with_tmux(m1, key, tmux, at1) && after
            == #[trigger] with_agent_session(m2, key, Seq::empty(), at2);
}

/// A number after `/resume` takes the session that the list showed under it,
/// as long as the key has an active session, so that listing makes none, and
/// sessions are filed under their own ids.
pub proof fn law_resume_takes_what_was_listed(
    m: ManagerModel,
    after: ManagerModel,
    key: Seq<char>,
    agent: Seq<char>,
    args: Seq<char>,
)
    requires
        consistent(m),
        well_filed(m),
        active_session(m, key) is Some,
        ensured(m, key, after),
        number_in(args) is Some,
        1 <= number_in(args)->0 <= listing(m, key, Some(agent)).len(),
    ensures
        ({
            let s = listing(m, key, Some(agent))[number_in(args)->0 - 1];
            let shown = listing(after, key, Some(agent));
            &&& pick(after, key, args, shown, listing(after, key, None)) == Pick::Take(s.id)
            &&& active_session(switched(after, key, s.id), key) == Some(s)
        }),
{
    let v = listing(m, key, Some(agent));
    law_listing_holds_the_sessions(m, key, Some(agent));
    let ids = choose|ids: Seq<Seq<char>>| #[trigger] lists(m, key, Some(agent), v, ids);
    let n = number_in(args)->0;
    assert(m.sessions.contains_key(ids[n - 1]) && m.sessions[ids[n - 1]] == v[n - 1]);
}

/// The lines of a list are numbered as the numbers after `/resume` count.
pub proof fn law_list_is_numbered(m: ManagerModel, key: Seq<char>, agent: Seq<char>, i: int)
    requires
        0 <= i < listing(m, key, Some(agent)).len(),
    ensures
        (decimal((i + 1) as nat) + ". "@).is_prefix_of(
            list_line(i, listing(m, key, Some(agent))[i], active_session(m, key)->0.id),
        ),
{
}

/// A number in decimal digits is read as that number, within the machine's
/// range.
pub proof fn law_number_reads_back(n: nat)
    requires
        n <= u32::MAX,
    ensures
        number_in(decimal(n)) == Some(n),
{
    law_decimal_reads_back(n);
    lemma_value_is_value_of(decimal(n));
    assert(all_digits(decimal(n)));
    assert(decimal(n)[0] != '+');
}

proof fn lemma_value_is_value_of(s: Seq<char>)
    requires
        forall|i: int| 0 <= i < s.len() ==> '0' <= #[trigger] s[i] <= '9',
    ensures
        value(s) == value_of(s),
    decreases s.len(),
{
    if s.len() > 0 {
        let front = s.drop_last();
        assert forall|i: int| 0 <= i < front.len() implies '0' <= #[trigger] front[i] <= '9' by {
            assert(front[i] == s[i]);
        }
        lemma_value_is_value_of(front);
        assert('0' <= s[s.len() - 1] <= '9');
    }
}

/// The help and the list of commands show every custom command, by its name and
/// with its description.
pub proof fn law_help_shows_the_commands(commands: Seq<CommandConfig>, i: int)
    requires
        0 <= i < commands.len(),
    ensures
        occurs(help_text(commands), command_entry(commands[i])),
        occurs(commands_text(commands), command_entry(commands[i])),
        HELP@.is_prefix_of(help_text(commands)),
{
    let (a, b) = lemma_help_lines(HELP@ + "\n\nCustom commands:"@, commands, i);
    lemma_occurs_in(a, command_entry(commands[i]), b);
    let (c, d) = lemma_command_lines("Custom commands:\n"@, commands, i);
    lemma_occurs_in(c, command_entry(commands[i]), d);
    let start = HELP@ + "\n\nCustom commands:"@;
    lemma_help_start(start, commands);
    let all = help_text(commands);
    assert(all.take(start.len() as int) == start);
    assert(all.take(HELP@.len() as int) =~= start.take(HELP@.len() as int));
    assert(HELP@ =~= all.take(HELP@.len() as int));
}

/// A custom command, as users see it.
pub open spec fn command_entry(c: CommandConfig) -> Seq<char> {
    "/"@ + c.name@ + " - "@ + c.description@
}

proof fn lemma_help_start(start: Seq<char>, commands: Seq<CommandConfig>)
    ensures
        with_help_lines(start, commands).len() >= start.len(),
        with_help_lines(start, commands).take(start.len() as int) == start,
    decreases commands.len(),
{
    if commands.len() > 0 {
        lemma_help_start(start, commands.drop_last());
        let w = with_help_lines(start, commands.drop_last());
        assert(with_help_lines(start, commands).take(start.len() as int) =~= w.take(
            start.len() as int,
        ));
    } else {
        assert(start.take(start.len() as int) =~= start);
    }
}

proof fn lemma_help_lines(start: Seq<char>, commands: Seq<CommandConfig>, i: int) -> (r: (
    Seq<char>,
    Seq<char>,
))
    requires
        0 <= i < commands.len(),
    ensures
        with_help_lines(start, commands) == r.0 + command_entry(commands[i]) + r.1,
    decreases commands.len(),
{
    reveal_strlit("\n/");
    reveal_strlit("/");
    let c = commands.last();
    let front = commands.drop_last();
    let w = with_help_lines(start, front);
    assert("\n/"@ =~= seq!['\n'] + "/"@);
    if i == commands.len() - 1 {
        let a = w + seq!['\n'];
        assert(with_help_lines(start, commands) =~= a + command_entry(c) + Seq::empty());
        (a, Seq::empty())
    } else {
        let (a, b) = lemma_help_lines(start, front, i);
        assert(front[i] == commands[i]);
        let rest = b + ("\n/"@ + c.name@ + " - "@ + c.description@);
        assert(with_help_lines(start, commands) =~= a + command_entry(commands[i]) + rest);
        (a, rest)
    }
}

proof fn lemma_command_lines(start: Seq<char>, commands: Seq<CommandConfig>, i: int) -> (r: (
    Seq<char>,
    Seq<char>,
))
    requires
        0 <= i < commands.len(),
    ensures
        with_command_lines(start, commands) == r.0 + command_entry(commands[i]) + r.1,
    decreases commands.len(),
{
    let c = commands.last();
    let front = commands.drop_last();
    let w = with_command_lines(start, front);
    if i == commands.len() - 1 {
        assert(with_command_lines(start, commands) =~= w + command_entry(c) + "\n"@);
        (w, "\n"@)
    } else {
        let (a, b) = lemma_command_lines(start, front, i);
        assert(front[i] == commands[i]);
        let rest = b + (command_entry(c) + "\n"@);
        assert(with_command_lines(start, commands) =~= a + command_entry(commands[i]) + rest);
        (a, rest)
    }
}

/// A list of sessions has a line for each, with its name and the start of its
/// id; the line of the active one is that of any other with a mark behind it.
pub proof fn law_list_shows_each_session(v: Seq<SessionModel>, active: Seq<char>, i: int)
    requires
        0 <= i < v.len(),
    ensures
        occurs(list_text(v, active), list_line(i, v[i], active)),
        occurs(list_line(i, v[i], active), shown_name(v[i])),
        occurs(list_line(i, v[i], active), short(v[i].id)),
        active != v[i].id ==> list_line(i, v[i], v[i].id) == list_line(i, v[i], active) + " <-"@,
{
    let rows = Seq::new(v.len(), |k: int| list_line(k, v[k], active));
    let (a, b) = lemma_part_occurs(rows, "\n"@, i);
    lemma_occurs_in(a, rows[i], b);
    let line = list_line(i, v[i], active);
    let number = decimal((i + 1) as nat) + ". "@;
    let mark = if v[i].id == active {
        " <-"@
    } else {
        ""@
    };
    let time = time_text(v[i].created_at, "%m-%d %H:%M"@);
    assert(line =~= number + shown_name(v[i]) + (" ["@ + short(v[i].id) + "] "@ + time + mark));
    lemma_occurs_in(number, shown_name(v[i]), " ["@ + short(v[i].id) + "] "@ + time + mark);
    let before = number + shown_name(v[i]) + " ["@;
    assert(line =~= before + short(v[i].id) + ("] "@ + time + mark));
    lemma_occurs_in(before, short(v[i].id), "] "@ + time + mark);
    reveal_strlit("");
    assert(list_line(i, v[i], v[i].id) =~= number + shown_name(v[i]) + " ["@ + short(v[i].id)
        + "] "@ + time + " <-"@);
    if active != v[i].id {
        assert(list_line(i, v[i], v[i].id) =~= list_line(i, v[i], active) + " <-"@);
    }
}

/// A session without a name is shown as such, one with a name by its name.
pub proof fn law_session_is_shown_by_its_name(s: SessionModel)
    ensures
        s.name is Some ==> shown_name(s) == s.name->0,
        s.name is None ==> shown_name(s) == "unnamed"@,
{
}

/// The history has a line for each session, with its name and the agent session
/// it holds, and only that of the active one starts with the mark.
pub proof fn law_history_shows_each_session(v: Seq<SessionModel>, active: Seq<char>, i: int)
    requires
        0 <= i < v.len(),
    ensures
        occurs(history_text(v, active), history_line(i, v[i], active)),
        occurs(history_line(i, v[i], active), shown_name(v[i])),
        v[i].agent_session_id is Some ==> short(v[i].agent_session_id->0).is_suffix_of(
            history_line(i, v[i], active),
        ),
        history_line(i, v[i], active)[0] == '▶' <==> v[i].id == active,
{
    let head = seq!["Session history:"@];
    let lines = Seq::new(v.len(), |k: int| history_line(k, v[k], active));
    let rows = head + lines;
    assert(rows[i + 1] == history_line(i, v[i], active));
    let (a, b) = lemma_part_occurs(rows, "\n"@, i + 1);
    lemma_occurs_in(a, rows[i + 1], b);
    reveal_strlit("▶");
    reveal_strlit("◻");
    reveal_strlit("-");
    let s = v[i];
    let mark = if s.id == active {
        "▶"@
    } else {
        "◻"@
    };
    let agent_id = or_text(s.agent_session_id, "-"@);
    let shown = if byte_len(agent_id) > 8 {
        short(agent_id)
    } else {
        agent_id
    };
    let line = history_line(i, s, active);
    let before = mark + " "@ + decimal((i + 1) as nat) + ". "@;
    let after = " | "@ + time_text(s.updated_at, "%m-%d %H:%M"@) + " | agent:"@ + shown;
    assert(line =~= before + shown_name(s) + after);
    lemma_occurs_in(before, shown_name(s), after);
    assert(line[0] == mark[0]);
    if s.agent_session_id is Some {
        if byte_len(agent_id) <= 8 {
            lemma_fitting(agent_id, 8);
            assert(short(agent_id) =~= agent_id);
        }
        let all = before + shown_name(s) + " | "@ + time_text(s.updated_at, "%m-%d %H:%M"@)
            + " | agent:"@;
        assert(line =~= all + short(agent_id));
        assert(short(agent_id) =~= line.skip(line.len() - short(agent_id).len()));
    }
}

/// What `/switch` and `/resume` take is a session of the key: the one under the
/// number, or one whose id starts as given.
pub proof fn law_what_is_taken_was_asked_for(
    m: ManagerModel,
    key: Seq<char>,
    args: Seq<char>,
    shown: Seq<SessionModel>,
    v: Seq<SessionModel>,
)
    requires
        pick(m, key, args, shown, v) is Take,
    ensures
        ({
            let id = pick(m, key, args, shown, v)->Take_0;
            &&& m.sessions.contains_key(id) && m.keys[id] == key
            &&& args.is_prefix_of(id) || (number_in(args) is Some && 1 <= number_in(args)->0
                <= shown.len() && id == shown[number_in(args)->0 - 1].id)
        }),
{
    let found = with_prefix(v, args);
    if found.len() == 1 {
        lemma_found(v, args, 0);
    }
}

proof fn lemma_found(v: Seq<SessionModel>, p: Seq<char>, i: int)
    requires
        0 <= i < with_prefix(v, p).len(),
    ensures
        p.is_prefix_of(with_prefix(v, p)[i].id),
    decreases v.len(),
{
    reveal(Seq::filter);
    if v.len() > 0 && i < with_prefix(v.drop_last(), p).len() {
        lemma_found(v.drop_last(), p, i);
    }
}

/// The start of an id takes the session of that id where it is the only one that
/// starts so; where none does, or more than one, nothing is taken.
pub proof fn law_start_of_an_id_is_enough(
    m: ManagerModel,
    key: Seq<char>,
    args: Seq<char>,
    v: Seq<SessionModel>,
    i: int,
    j: int,
)
    requires
        number_in(args) is None,
        0 <= i < v.len(),
        0 <= j < v.len(),
    ensures
        args.is_prefix_of(v[i].id) && switchable(m, key, v[i].id) && (forall|k: int|
            0 <= k < v.len() && k != i ==> !args.is_prefix_of((#[trigger] v[k]).id)) ==> pick(
            m,
            key,
            args,
            v,
            v,
        ) == Pick::Take(v[i].id),
        i != j && args.is_prefix_of(v[i].id) && args.is_prefix_of(v[j].id) ==> pick(
            m,
            key,
            args,
            v,
            v,
        ) is Refuse,
        (forall|k: int| 0 <= k < v.len() ==> !args.is_prefix_of((#[trigger] v[k]).id)) ==> pick(
            m,
            key,
            args,
            v,
            v,
        ) is Refuse,
{
    lemma_prefix_count(v, args);
    if args.is_prefix_of(v[i].id) {
        lemma_prefix_unique(v, args, i);
    }
    if i != j && args.is_prefix_of(v[i].id) && args.is_prefix_of(v[j].id) {
        if i < j {
            lemma_prefix_pair(v, args, i, j);
        } else {
            lemma_prefix_pair(v, args, j, i);
        }
    }
}

proof fn lemma_prefix_count(v: Seq<SessionModel>, p: Seq<char>)
    ensures
        (forall|k: int| 0 <= k < v.len() ==> !p.is_prefix_of((#[trigger] v[k]).id)) ==> with_prefix(
            v,
            p,
        ).len() == 0,
        (exists|k: int| 0 <= k < v.len() && p.is_prefix_of((#[trigger] v[k]).id)) ==> with_prefix(
            v,
            p,
        ).len() > 0,
    decreases v.len(),
{
    reveal(Seq::filter);
    if v.len() > 0 {
        let front = v.drop_last();
        lemma_prefix_count(front, p);
        assert forall|k: int| 0 <= k < front.len() implies front[k] == v[k] by {}
        if exists|k: int| 0 <= k < v.len() && p.is_prefix_of((#[trigger] v[k]).id) {
            let k = choose|k: int| 0 <= k < v.len() && p.is_prefix_of((#[trigger] v[k]).id);
            if k < front.len() {
                assert(p.is_prefix_of(front[k].id));
            }
        }
    }
}

proof fn lemma_prefix_unique(v: Seq<SessionModel>, p: Seq<char>, i: int)
    requires
        0 <= i < v.len(),
        p.is_prefix_of(v[i].id),
    ensures
        (forall|k: int| 0 <= k < v.len() && k != i ==> !p.is_prefix_of((#[trigger] v[k]).id))
            ==> with_prefix(v, p) == seq![v[i]],
    decreases v.len(),
{
    reveal(Seq::filter);
    if forall|k: int| 0 <= k < v.len() && k != i ==> !p.is_prefix_of((#[trigger] v[k]).id) {
        let front = v.drop_last();
        lemma_prefix_count(front, p);
        if i == v.len() - 1 {
            assert forall|k: int| 0 <= k < front.len() implies !p.is_prefix_of(
                (#[trigger] front[k]).id,
            ) by {
                assert(front[k] == v[k]);
            }
            assert(with_prefix(v, p) =~= seq![v[i]]);
        } else {
            lemma_prefix_unique(front, p, i);
            assert forall|k: int| 0 <= k < front.len() && k != i implies !p.is_prefix_of(
                (#[trigger] front[k]).id,
            ) by {
                assert(front[k] == v[k]);
            }
            assert(!p.is_prefix_of(v[v.len() - 1].id));
            assert(with_prefix(v, p) =~= with_prefix(front, p));
        }
    }
}

proof fn lemma_prefix_pair(v: Seq<SessionModel>, p: Seq<char>, i: int, j: int)
    requires
        0 <= i < j < v.len(),
        p.is_prefix_of(v[i].id),
        p.is_prefix_of(v[j].id),
    ensures
        with_prefix(v, p).len() >= 2,
    decreases v.len(),
{
    reveal(Seq::filter);
    let front = v.drop_last();
    if j == v.len() - 1 {
        assert(front[i] == v[i]);
        lemma_prefix_count(front, p);
    } else {
        assert(front[i] == v[i] && front[j] == v[j]);
        lemma_prefix_pair(front, p, i, j);
    }
}

/// A word in front of a blank is cut off with the blank, and nothing else is.
proof fn lemma_cut(word: Seq<char>, rest: Seq<char>)
    requires
        is_word(word),
    ensures
        first_word(word + " "@ + rest) == word,
        after_word(word + " "@ + rest) == rest,
        word_len(word + " "@ + rest) == word.len(),
{
    reveal_strlit(" ");
    let s = word + " "@ + rest;
    assert forall|k: int| 0 <= k < word.len() implies !is_space(#[trigger] s[k]) by {
        assert(s[k] == word[k]);
    }
    assert(s[word.len() as int] == ' ');
    lemma_word_len(s, word.len() as int);
    assert(first_word(s) =~= word);
    assert(after_word(s) =~= rest);
}

/// Whether a text is a single word.
pub open spec fn is_word(s: Seq<char>) -> bool {
    s.len() > 0 && forall|k: int| 0 <= k < s.len() ==> !is_space(#[trigger] s[k])
}

/// Whether a text has no white space at its ends, and something between them.
pub open spec fn is_neat(s: Seq<char>) -> bool {
    s.len() > 0 && !is_space(s[0]) && !is_space(s.last())
}

proof fn lemma_neat_is_trimmed(s: Seq<char>)
    requires
        is_neat(s),
    ensures
        trimmed(s) == s,
{
    let (a, b) = law_trimmed_stands_in_the_text(s);
    if a.len() > 0 {
        assert(s[0] == a[0]);
    }
    if b.len() > 0 {
        assert(s.last() == b[b.len() - 1]);
    }
    assert(s =~= trimmed(s));
}

/// `/cron add` asks for a job at the time that its five fields give, in their
/// order and with a last field left open, and with what stands behind them as
/// its prompt, whatever blanks are in it.
pub proof fn law_job_is_added_as_given(
    minute: Seq<char>,
    hour: Seq<char>,
    day: Seq<char>,
    month: Seq<char>,
    weekday: Seq<char>,
    prompt: Seq<char>,
)
    requires
        is_word(minute),
        is_word(hour),
        is_word(day),
        is_word(month),
        is_word(weekday),
        is_neat(prompt),
    ensures
        ({
            let fields = minute + " "@ + (hour + " "@ + (day + " "@ + (month + " "@ + (weekday
                + " "@ + prompt))));
            let answer = cron_answer("add"@ + " "@ + fields);
            &&& answer is Ask && answer->Ask_0 is AddJob
            &&& answer->Ask_0->AddJob_expr == minute + " "@ + hour + " "@ + day + " "@ + month
                + " "@ + weekday + " *"@
            &&& answer->Ask_0->AddJob_prompt == prompt
            &&& answer->Ask_0->AddJob_description.take(
                if prompt.len() <= 30 {
                    prompt.len() as int
                } else {
                    30
                },
            ) == prompt.take(
                if prompt.len() <= 30 {
                    prompt.len() as int
                } else {
                    30
                },
            )
        }),
{
    reveal_strlit("add");
    reveal_strlit(" ");
    let r5 = weekday + " "@ + prompt;
    let r4 = month + " "@ + r5;
    let r3 = day + " "@ + r4;
    let r2 = hour + " "@ + r3;
    let fields = minute + " "@ + r2;
    assert(is_word("add"@));
    lemma_cut("add"@, fields);
    assert(fields[0] == minute[0]);
    assert(fields.last() == prompt.last());
    lemma_neat_is_trimmed(fields);
    lemma_cut(minute, r2);
    lemma_cut(hour, r3);
    lemma_cut(day, r4);
    lemma_cut(month, r5);
    lemma_cut(weekday, prompt);
    assert(pieces(prompt, 1) =~= seq![prompt]);
    assert(pieces(r5, 2) =~= seq![weekday, prompt]);
    assert(pieces(r4, 3) =~= seq![month, weekday, prompt]);
    assert(pieces(r3, 4) =~= seq![day, month, weekday, prompt]);
    assert(pieces(r2, 5) =~= seq![hour, day, month, weekday, prompt]);
    assert(pieces(fields, 6) =~= seq![minute, hour, day, month, weekday, prompt]);
    let n = if prompt.len() <= 30 {
        prompt.len() as int
    } else {
        30
    };
    assert(clipped(prompt, 30, "..."@).take(n) =~= prompt.take(n));
}

/// The pieces of a text are no more than were asked for, and joined by the white
/// space between them they are the text: none of it is lost.
pub proof fn law_pieces_are_the_text(s: Seq<char>, n: nat) -> (gaps: Seq<char>)
    ensures
        1 <= pieces(s, n).len() && (n > 0 ==> pieces(s, n).len() <= n),
        gaps.len() == pieces(s, n).len() - 1,
        forall|i: int| 0 <= i < gaps.len() ==> is_space(#[trigger] gaps[i]),
        interlaced(pieces(s, n), gaps) == s,
    decreases n,
{
    if n <= 1 || word_len(s) >= s.len() {
        assert(interlaced(pieces(s, n), Seq::empty()) =~= s);
        Seq::empty()
    } else {
        lemma_word_len_bounds(s);
        lemma_gap(s);
        let rest = after_word(s);
        let gaps = law_pieces_are_the_text(rest, (n - 1) as nat);
        let all = seq![s[word_len(s)]] + gaps;
        let parts = pieces(s, n);
        assert(parts.skip(1) =~= pieces(rest, (n - 1) as nat));
        assert(all.skip(1) =~= gaps);
        assert(parts.len() > 1);
        assert(interlaced(parts, all) == parts[0] + seq![all[0]] + interlaced(
            parts.skip(1),
            all.skip(1),
        ));
        assert(s =~= first_word(s) + seq![s[word_len(s)]] + rest);
        assert forall|i: int| 0 <= i < all.len() implies is_space(#[trigger] all[i]) by {
            if i > 0 {
                assert(all[i] == gaps[i - 1]);
            }
        }
        all
    }
}

/// Parts, with a character between each and the next.
pub open spec fn interlaced(parts: Seq<Seq<char>>, gaps: Seq<char>) -> Seq<char>
    decreases parts.len(),
{
    if parts.len() == 0 {
        Seq::empty()
    } else if parts.len() == 1 {
        parts[0]
    } else {
        parts[0] + seq![gaps[0]] + interlaced(parts.skip(1), gaps.skip(1))
    }
}

proof fn lemma_gap(s: Seq<char>)
    ensures
        word_len(s) < s.len() ==> is_space(s[word_len(s)]),
    decreases s.len(),
{
    if s.len() > 0 && !is_space(s[0]) {
        lemma_gap(s.skip(1));
        lemma_word_len_bounds(s.skip(1));
        if word_len(s) < s.len() {
            assert(s[word_len(s)] == s.skip(1)[word_len(s.skip(1))]);
        }
    }
}

/// A job is deleted by the id behind `/cron del`.
pub proof fn law_job_is_deleted_by_its_id(id: Seq<char>)
    requires
        is_neat(id),
    ensures
        cron_answer("del"@ + " "@ + id) == Answer::<Seq<char>>::Ask(Errand::DeleteJob(id)),
        cron_answer("delete"@ + " "@ + id) == Answer::<Seq<char>>::Ask(Errand::DeleteJob(id)),
        cron_answer("rm"@ + " "@ + id) == Answer::<Seq<char>>::Ask(Errand::DeleteJob(id)),
{
    reveal_strlit("del");
    reveal_strlit("delete");
    reveal_strlit("rm");
    reveal_strlit("add");
    reveal_strlit("list");
    assert(is_word("del"@) && is_word("delete"@) && is_word("rm"@));
    lemma_cut("del"@, id);
    lemma_cut("delete"@, id);
    lemma_cut("rm"@, id);
    lemma_neat_is_trimmed(id);
    assert("del"@[0] != "add"@[0]);
    assert("list"@.len() == 4 && "delete"@.len() == 6 && "rm"@.len() == 2);
}

/// Every job is listed with its id, its time and its description, and whether it
/// is switched on can be seen from its line.
pub proof fn law_jobs_are_listed(jobs: Seq<CronJob>, i: int, other: CronJob)
    requires
        0 <= i < jobs.len(),
    ensures
        occurs(jobs_text(jobs), job_line(i, jobs[i])),
        occurs(job_line(i, jobs[i]), jobs[i].id@),
        occurs(job_line(i, jobs[i]), jobs[i].cron_expr@),
        jobs[i].description@.is_suffix_of(job_line(i, jobs[i])),
        other.id@ == jobs[i].id@ && other.cron_expr@ == jobs[i].cron_expr@ && other.description@
            == jobs[i].description@ && other.enabled != jobs[i].enabled ==> job_line(i, other).len()
            != job_line(i, jobs[i]).len(),
        occurs(job_line(i, jobs[i]), if jobs[i].enabled {
            "] ON |"@
        } else {
            "] OFF |"@
        }),
{
    let rows = Seq::new(jobs.len(), |k: int| job_line(k, jobs[k]));
    let (a, b) = lemma_part_occurs(rows, "\n"@, i);
    lemma_occurs_in(a, rows[i], b);
    reveal_strlit("ON");
    reveal_strlit("OFF");
    reveal_strlit("] ");
    reveal_strlit(" | ");
    reveal_strlit("] ON |");
    reveal_strlit("] OFF |");
    let j = jobs[i];
    let state = if j.enabled {
        "ON"@
    } else {
        "OFF"@
    };
    let line = job_line(i, j);
    let start = decimal((i + 1) as nat) + ". ["@;
    let end = " | "@ + j.cron_expr@ + " | "@ + j.description@;
    assert(line =~= start + j.id@ + ("] "@ + state + end));
    lemma_occurs_in(start, j.id@, "] "@ + state + end);
    let before = start + j.id@ + "] "@ + state + " | "@;
    assert(line =~= before + j.cron_expr@ + (" | "@ + j.description@));
    lemma_occurs_in(before, j.cron_expr@, " | "@ + j.description@);
    assert(j.description@ =~= line.skip(line.len() - j.description@.len()));
    let shown = if j.enabled {
        "] ON |"@
    } else {
        "] OFF |"@
    };
    assert(shown =~= "] "@ + state + seq![' ', '|']);
    let after = seq![' '] + j.cron_expr@ + " | "@ + j.description@;
    assert(line =~= (start + j.id@) + shown + after);
    lemma_occurs_in(start + j.id@, shown, after);
}

/// A job that was added is told with its id, its time and its prompt; an error
/// is told in its own words; a job that is gone is told with its id, and so is
/// one that was not there, in other words.
pub proof fn law_jobs_are_told(job: CronJob, e: String, id: Seq<char>)
    ensures
        occurs(added_text(Ok(job)), job.id@),
        occurs(added_text(Ok(job)), job.cron_expr@),
        occurs(added_text(Ok(job)), job.prompt@),
        occurs(added_text(Err(e)), e@),
        occurs(gone_text(id, true), id) && " deleted."@.is_suffix_of(gone_text(id, true)),
        occurs(gone_text(id, false), id) && " not found."@.is_suffix_of(gone_text(id, false)),
{
    let all = added_text(Ok(job));
    let (h, i, j) = ("Cron job added:\nID: "@, "\nSchedule: "@, "\nPrompt: "@);
    let none = Seq::<char>::empty();
    assert(all =~= h + job.id@ + (i + job.cron_expr@ + j + job.prompt@));
    lemma_occurs_in(h, job.id@, i + job.cron_expr@ + j + job.prompt@);
    assert(all =~= (h + job.id@ + i) + job.cron_expr@ + (j + job.prompt@));
    lemma_occurs_in(h + job.id@ + i, job.cron_expr@, j + job.prompt@);
    assert(all =~= (h + job.id@ + i + job.cron_expr@ + j) + job.prompt@ + none);
    lemma_occurs_in(h + job.id@ + i + job.cron_expr@ + j, job.prompt@, none);
    let f = "Failed to add cron job: "@;
    assert(added_text(Err(e)) =~= f + e@ + none);
    lemma_occurs_in(f, e@, none);
    lemma_occurs_in("Cron job "@, id, " deleted."@);
    lemma_occurs_in("Cron job "@, id, " not found."@);
    reveal_strlit(" deleted.");
    reveal_strlit(" not found.");
    let a = gone_text(id, true);
    let b = gone_text(id, false);
    assert(" deleted."@ =~= a.skip(a.len() - " deleted."@.len()));
    assert(" not found."@ =~= b.skip(b.len() - " not found."@.len()));
}

/// A path that starts with a slash stands for itself. Any other is looked for
/// below the base: the result starts with the base, ends with the path, and has
/// between them just the slash that was missing.
pub proof fn law_path_is_below_its_base(base: Seq<char>, path: Seq<char>)
    ensures
        path.len() > 0 && path[0] == '/' ==> path_join(base, path) == path,
        path.len() > 0 && path[0] != '/' ==> base.is_prefix_of(path_join(base, path))
            && path.is_suffix_of(path_join(base, path)),
        path.len() > 0 && path[0] != '/' && base.len() > 0 ==> path_join(base, path)[path_join(
            base,
            path,
        ).len() - path.len() - 1] == '/',
        path.len() > 0 && path[0] != '/' && (base.len() == 0 || base.last() == '/') ==> path_join(
            base,
            path,
        ).len() == base.len() + path.len(),
        path.len() > 0 && path[0] != '/' && base.len() > 0 && base.last() != '/' ==> path_join(
            base,
            path,
        ).len() == base.len() + path.len() + 1,
{
    reveal_strlit("/");
    let all = path_join(base, path);
    if path.len() > 0 {
        if path[0] == '/' {
            assert("/"@ =~= path.take(1));
        } else {
            if "/"@.is_prefix_of(path) {
                assert(path.take(1)[0] == '/');
            }
            assert(base =~= all.take(base.len() as int));
            assert(path =~= all.skip(all.len() - path.len()));
        }
    }
}

/// After a change of directory the key works there, and its agent goes on with
/// what it finds there; the session stays the same one.
pub proof fn law_directory_is_changed(
    m: ManagerModel,
    after: ManagerModel,
    key: Seq<char>,
    dir: Seq<char>,
)
    requires
        moved(m, after, key, dir),
    ensures
        work_dir_of(after, key) == Some(dir),
        active_session(after, key) is Some,
        active_session(after, key)->0.agent_session_id == Some(CONTINUE_SESSION@),
        active_session(m, key) is Some ==> active_session(after, key)->0.id == active_session(
            m,
            key,
        )->0.id && active_session(after, key)->0.name == active_session(m, key)->0.name,
{
    reveal_strlit("__continue__");
    let (m1, m2, at1, at2) = choose|
        m1: ManagerModel,
        m2: ManagerModel,
        at1: Timestamp,
        at2: Timestamp,
    |
        ensured(m, key, m1) && m2 == #[trigger] with_work_dir(m1, key, dir, at1) && after
            == #[trigger] with_agent_session(m2, key, CONTINUE_SESSION@, at2);
    assert(active_session(m1, key) is Some);
    assert(CONTINUE_SESSION@.len() > 0);
}

/// `/dir` shows the directory that is in use, goes back to that of the project
/// with `reset`, and looks for any other below the one in use.
pub proof fn law_directory_is_looked_for_below_the_current_one(
    config: ProjectConfig,
    m: ManagerModel,
    after: ManagerModel,
    key: Seq<char>,
    args: Seq<char>,
    answer: Answer<Seq<char>>,
    current: Seq<char>,
)
    requires
        dir_done(config, m, after, key, args, answer),
        work_dir_of(m, key) == Some(current),
    ensures
        args.len() == 0 ==> after == m && answer is Reply && occurs(answer->Reply_0, current),
        args == "reset"@ ==> work_dir_of(after, key) == Some(config.work_dir@),
        args.len() > 0 && args != "reset"@ ==> after == m && answer == Answer::<Seq<char>>::Ask(
            Errand::ProbeDir(path_join(current, args)),
        ),
{
    reveal_strlit("reset");
    if args.len() == 0 {
        let tail = "\n(source: "@ + "session override"@ + ")"@;
        assert(answer->Reply_0 =~= "Work directory: "@ + current + tail);
        lemma_occurs_in("Work directory: "@, current, tail);
    } else if args == "reset"@ {
        law_directory_is_changed(m, after, key, config.work_dir@);
    }
}

/// What became of a change of directory is told with the directory.
pub proof fn law_directory_is_told(resolved: Seq<char>, probe: DirProbe)
    ensures
        match probe {
            DirProbe::Directory(d) => d@.is_suffix_of(place_text(resolved, probe)),
            _ => resolved.is_suffix_of(place_text(resolved, probe)),
        },
        place_text(resolved, DirProbe::Missing) != place_text(resolved, DirProbe::NotADirectory),
{
    let t = place_text(resolved, probe);
    match probe {
        DirProbe::Directory(d) => {
            assert(d@ =~= t.skip(t.len() - d@.len()));
        },
        _ => {
            assert(resolved =~= t.skip(t.len() - resolved.len()));
        },
    }
    reveal_strlit("Path does not exist: ");
    reveal_strlit("Not a directory: ");
    assert(place_text(resolved, DirProbe::Missing)[0] == 'P');
    assert(place_text(resolved, DirProbe::NotADirectory)[0] == 'N');
}

/// The tmux sessions are those that the output has on its lines: each of them is
/// a line without the white space at its ends, none is empty, and no other line
/// is left out.
pub proof fn law_tmux_sessions_are_the_lines(output: Seq<char>, name: Seq<char>)
    ensures
        tmux_names(output).contains(name) <==> name.len() > 0 && exists|i: int|
            0 <= i < lines(output).len() && name == trimmed(#[trigger] lines(output)[i]),
{
    let all = lines(output).map_values(|l: Seq<char>| trimmed(l));
    let f = |l: Seq<char>| l.len() > 0;
    let kept = all.filter(f);
    lemma_filter_keeps(all, name);
    if all.contains(name) {
        let i = choose|i: int| 0 <= i < all.len() && all[i] == name;
        assert(name == trimmed(lines(output)[i]));
    }
    if exists|i: int| 0 <= i < lines(output).len() && name == trimmed(#[trigger] lines(output)[i]) {
        let i = choose|i: int|
            0 <= i < lines(output).len() && name == trimmed(#[trigger] lines(output)[i]);
        assert(all[i] == name);
        assert(all.contains(name));
    }
}

proof fn lemma_filter_keeps(all: Seq<Seq<char>>, name: Seq<char>)
    ensures
        all.filter(|l: Seq<char>| l.len() > 0).contains(name) <==> all.contains(name) && name.len()
            > 0,
    decreases all.len(),
{
    reveal(Seq::filter);
    let f = |l: Seq<char>| l.len() > 0;
    if all.len() > 0 {
        let front = all.drop_last();
        lemma_filter_keeps(front, name);
        let kept = front.filter(f);
        if all.contains(name) {
            let i = choose|i: int| 0 <= i < all.len() && all[i] == name;
            if i < front.len() {
                assert(front[i] == name);
                assert(front.contains(name));
            }
        }
        if front.contains(name) {
            let i = choose|i: int| 0 <= i < front.len() && front[i] == name;
            assert(all[i] == name);
            assert(all.contains(name));
        }
        assert(all[all.len() - 1] == all.last());
        if f(all.last()) {
            let more = kept.push(all.last());
            assert(all.filter(f) == more);
            if more.contains(name) {
                let i = choose|i: int| 0 <= i < more.len() && more[i] == name;
                if i < kept.len() {
                    assert(kept[i] == name);
                    assert(kept.contains(name));
                }
            }
            if kept.contains(name) {
                let i = choose|i: int| 0 <= i < kept.len() && kept[i] == name;
                assert(more[i] == name);
            }
            if name == all.last() {
                assert(more[kept.len() as int] == name);
            }
        }
    }
}

/// The tmux sessions that can be attached are all shown, and so is the one that
/// the key is bound to.
pub proof fn law_attachable_sessions_are_shown(
    list: Seq<Seq<char>>,
    tmux: Option<Seq<char>>,
    i: int,
)
    requires
        0 <= i < list.len(),
    ensures
        occurs(attachable_text(Some(list), tmux), list[i]),
        tmux is Some ==> tmux->0.is_suffix_of(attachable_text(Some(list), tmux))
            && tmux->0.is_suffix_of(attachable_text(None, tmux)) && tmux->0.is_suffix_of(
            attachable_text(Some(Seq::empty()), tmux),
        ),
{
    let (a, b) = lemma_part_occurs(list, "\n"@, i);
    let current = match tmux {
        Some(t) => "\n当前已绑定: "@ + t,
        None => Seq::empty(),
    };
    let head = "可 attach 的 tmux 会话:\n"@;
    let tail = "\n\n用 /attach <会话名> 绑定本频道。"@;
    let all = attachable_text(Some(list), tmux);
    assert(all =~= (head + a) + list[i] + (b + tail + current));
    lemma_occurs_in(head + a, list[i], b + tail + current);
    if tmux is Some {
        let t = tmux->0;
        let x = attachable_text(None, tmux);
        let y = attachable_text(Some(Seq::empty()), tmux);
        assert(t =~= all.skip(all.len() - t.len()));
        assert(t =~= x.skip(x.len() - t.len()));
        assert(t =~= y.skip(y.len() - t.len()));
    }
}

/// Sessions are synchronised in the direction that is asked for: pulled unless
/// pushing is asked for, in no other direction, and not at all where it is not
/// set up.
pub proof fn law_sync_goes_the_way_asked_for(config: ProjectConfig, args: Seq<char>)
    ensures
        config.sync_auto is None ==> sync_answer(config, args) is Reply,
        config.sync_auto is Some && trimmed(args) == "push"@ ==> sync_answer(config, args)
            == Answer::<Seq<char>>::Ask(Errand::Sync(Direction::Push)),
        config.sync_auto is Some && (trimmed(args) == "pull"@ || trimmed(args).len() == 0)
            ==> sync_answer(config, args) == Answer::<Seq<char>>::Ask(Errand::Sync(Direction::Pull)),
        sync_answer(config, args) == Answer::<Seq<char>>::Ask(Errand::Sync(Direction::Push))
            ==> trimmed(args) == "push"@,
        config.sync_auto is Some && sync_answer(config, args) is Reply ==> occurs(
            sync_answer(config, args)->Reply_0,
            trimmed(args),
        ),
{
    reveal_strlit("push");
    reveal_strlit("pull");
    assert("push"@[2] != "pull"@[2]);
    lemma_occurs_in("Unknown sync direction: "@, trimmed(args), "\nUsage: /sync [pull|push]"@);
}

/// What synchronisation said is told as it is, an error as an error.
pub proof fn law_sync_is_told(text: String, e: String)
    ensures
        synced_text(Ok(text)) == text@,
        occurs(synced_text(Err(e)), e@),
{
    let none = Seq::<char>::empty();
    assert(synced_text(Err(e)) =~= "Sync failed: "@ + e@ + none);
    lemma_occurs_in("Sync failed: "@, e@, none);
}

/// The status names the project, the agent, its mode and model, and the session.
pub proof fn law_status_names_everything(
    config: ProjectConfig,
    s: SessionModel,
    agent: Seq<char>,
    mode: Seq<char>,
    model: Seq<char>,
)
    ensures
        occurs(status_text(config, s, agent, mode, model), "\nProject: "@ + config.name@),
        occurs(status_text(config, s, agent, mode, model), "\nAgent: "@ + agent),
        occurs(status_text(config, s, agent, mode, model), "\nMode: "@ + mode),
        occurs(status_text(config, s, agent, mode, model), "\nModel: "@ + model),
        occurs(status_text(config, s, agent, mode, model), short(s.id)),
        occurs(status_text(config, s, agent, mode, model), shown_name(s)),
{
    reveal_strlit("Status\nProject: ");
    reveal_strlit("Status");
    reveal_strlit("\nProject: ");
    assert("Status\nProject: "@ =~= "Status"@ + "\nProject: "@);
    let all = status_text(config, s, agent, mode, model);
    let p = "\nProject: "@ + config.name@;
    let a = "\nAgent: "@ + agent;
    let o = "\nMode: "@ + mode;
    let l = "\nModel: "@ + model;
    let e = "\nSession: "@;
    let id = short(s.id);
    let n = shown_name(s);
    let h = "Status"@;
    assert(all =~= h + p + (a + o + l + e + id + " ("@ + n + ")"@));
    lemma_occurs_in(h, p, a + o + l + e + id + " ("@ + n + ")"@);
    assert(all =~= (h + p) + a + (o + l + e + id + " ("@ + n + ")"@));
    lemma_occurs_in(h + p, a, o + l + e + id + " ("@ + n + ")"@);
    assert(all =~= (h + p + a) + o + (l + e + id + " ("@ + n + ")"@));
    lemma_occurs_in(h + p + a, o, l + e + id + " ("@ + n + ")"@);
    assert(all =~= (h + p + a + o) + l + (e + id + " ("@ + n + ")"@));
    lemma_occurs_in(h + p + a + o, l, e + id + " ("@ + n + ")"@);
    assert(all =~= (h + p + a + o + l + e) + id + (" ("@ + n + ")"@));
    lemma_occurs_in(h + p + a + o + l + e, id, " ("@ + n + ")"@);
    assert(all =~= (h + p + a + o + l + e + id + " ("@) + n + ")"@);
    lemma_occurs_in(h + p + a + o + l + e + id + " ("@, n, ")"@);
}

/// `/current` tells the id and the name of the session.
pub proof fn law_current_session_is_told(s: SessionModel)
    ensures
        occurs(current_text(s), "\nID: "@ + short(s.id)),
        occurs(current_text(s), "\nName: "@ + shown_name(s)),
{
    reveal_strlit("Current session\nID: ");
    reveal_strlit("Current session");
    reveal_strlit("\nID: ");
    assert("Current session\nID: "@ =~= "Current session"@ + "\nID: "@);
    let all = current_text(s);
    let h = "Current session"@;
    let i = "\nID: "@ + short(s.id);
    let n = "\nName: "@ + shown_name(s);
    let t = "\nCreated: "@ + time_text(s.created_at, "%Y-%m-%d %H:%M"@);
    assert(all =~= h + i + (n + t));
    lemma_occurs_in(h, i, n + t);
    assert(all =~= (h + i) + n + t);
    lemma_occurs_in(h + i, n, t);
}

/// `/new` makes a session the active one, with the name that was given and for
/// the agent in use, and in the directory of the one before; the answer shows
/// the start of its id.
pub proof fn law_new_session_is_told(
    m: ManagerModel,
    after: ManagerModel,
    key: Seq<char>,
    agent: Seq<char>,
    args: Seq<char>,
    reply: Seq<char>,
)
    requires
        new_done(m, after, key, agent, args, reply),
    ensures
        active_session(after, key) is Some,
        ({
            let s = active_session(after, key)->0;
            &&& args.len() > 0 ==> s.name == Some(args)
            &&& args.len() == 0 ==> s.name is None
            &&& s.agent_type == agent
            &&& s.work_dir == work_dir_of(m, key)
            &&& s.agent_session_id is None && s.tmux_session is None
            &&& occurs(reply, short(s.id))
        }),
{
    let (id, at) = choose|id: Seq<char>, at: Timestamp|
        uuid_shaped(id) && valid_time(at) && after == #[trigger] created(
            m,
            key,
            name_in(args),
            agent,
            id,
            at,
        ) && reply == "New session created: "@ + short(id);
    let none = Seq::<char>::empty();
    assert(reply =~= "New session created: "@ + short(id) + none);
    lemma_occurs_in("New session created: "@, short(id), none);
}

/// `/name` names the active session and nothing else, and the answer shows the
/// name; without one it shows the name there is.
pub proof fn law_session_is_named(
    m: ManagerModel,
    after: ManagerModel,
    key: Seq<char>,
    args: Seq<char>,
    reply: Seq<char>,
    other: Seq<char>,
)
    requires
        name_done(m, after, key, args, reply),
        active_session(m, key) is Some,
    ensures
        trimmed(args).len() > 0 ==> active_session(after, key)->0.name == Some(trimmed(args))
            && occurs(reply, trimmed(args)) && active_session(after, key)->0.id == active_session(
            m,
            key,
        )->0.id,
        trimmed(args).len() == 0 ==> after == m && (active_session(m, key)->0.name is Some
            ==> occurs(reply, active_session(m, key)->0.name->0)),
        m.sessions.contains_key(other) && other != m.active[key] ==> after.sessions.contains_key(
            other,
        ) && after.sessions[other] == m.sessions[other],
{
    let none = Seq::<char>::empty();
    let name = trimmed(args);
    if name.len() > 0 {
        assert(reply =~= "Session renamed to: "@ + name + none);
        lemma_occurs_in("Session renamed to: "@, name, none);
    } else {
        let shown = or_text(active_session(after, key)->0.name, "(unnamed)"@);
        lemma_occurs_in("Current session name: "@, shown, "\nUsage: /name <new name>"@);
    }
}

/// `/delete` takes away the active session and no other, opens a new one in its
/// place, and tells both.
pub proof fn law_delete_opens_another(
    m: ManagerModel,
    after: ManagerModel,
    key: Seq<char>,
    reply: Seq<char>,
    other: Seq<char>,
)
    requires
        delete_done(m, after, key, reply),
        well_filed(m),
        active_session(m, key) is Some,
    ensures
        ({
            let gone = active_session(m, key)->0.id;
            let s = active_session(after, key)->0;
            &&& active_session(after, key) is Some
            &&& occurs(reply, short(gone)) && occurs(reply, short(s.id))
            &&& after.sessions.contains_key(gone) ==> s.id == gone && s.name is None
            &&& m.sessions.contains_key(other) && other != gone && other != s.id
                ==> after.sessions.contains_key(other) && after.sessions[other]
                == m.sessions[other]
        }),
{
    let before = choose|before: ManagerModel| #[trigger]
        ensured(m, key, before) && active_session(before, key) is Some && ({
            let id = active_session(before, key)->0.id;
            &&& ensured(deleted(before, key, id), key, after)
            &&& active_session(after, key) is Some
            &&& reply == "Deleted session ["@ + short(id) + "]\nNew session: ["@ + short(
                active_session(after, key)->0.id,
            ) + "]"@
        });
    assert(before == m);
    let gone = active_session(m, key)->0.id;
    assert(m.active[key] == gone);
    let s = active_session(after, key)->0;
    let h = "Deleted session ["@;
    let mid = "]\nNew session: ["@;
    assert(active_session(deleted(m, key, gone), key) is None);
    assert(reply =~= h + short(gone) + (mid + short(s.id) + "]"@));
    lemma_occurs_in(h, short(gone), mid + short(s.id) + "]"@);
    assert(reply =~= (h + short(gone) + mid) + short(s.id) + "]"@);
    lemma_occurs_in(h + short(gone) + mid, short(s.id), "]"@);
}

/// `/model` and `/mode` tell what was chosen and for which agent; a mode that is
/// none is told with the ones there are, each of which can be chosen.
pub proof fn law_choice_is_told(
    config: ProjectConfig,
    o: Overrides,
    key: Seq<char>,
    agent: Seq<char>,
    args: Seq<char>,
)
    requires
        args.len() > 0,
    ensures
        occurs(model_reply(config, o, key, agent, args), args),
        occurs(model_reply(config, o, key, agent, args), agent),
        occurs(mode_reply(config, o, key, agent, args), args),
        known_mode(args) ==> occurs(mode_reply(config, o, key, agent, args), agent),
        known_mode(args) ==> occurs(MODES@, args),
        !known_mode(args) ==> MODES@.is_suffix_of(mode_reply(config, o, key, agent, args)),
{
    let tail = "]\nTakes effect on next message."@;
    let all = model_reply(config, o, key, agent, args);
    let h = "Model set to: "@;
    assert(all =~= h + args + (" [agent: "@ + agent + tail));
    lemma_occurs_in(h, args, " [agent: "@ + agent + tail);
    assert(all =~= (h + args + " [agent: "@) + agent + tail);
    lemma_occurs_in(h + args + " [agent: "@, agent, tail);
    let r = mode_reply(config, o, key, agent, args);
    if known_mode(args) {
        let g = "Mode set to: "@;
        assert(r =~= g + args + (" [agent: "@ + agent + tail));
        lemma_occurs_in(g, args, " [agent: "@ + agent + tail);
        assert(r =~= (g + args + " [agent: "@) + agent + tail);
        lemma_occurs_in(g + args + " [agent: "@, agent, tail);
        reveal_strlit("default, yolo, plan, auto");
        reveal_strlit("default");
        reveal_strlit("yolo");
        reveal_strlit("plan");
        reveal_strlit("auto");
        assert(MODES@.subrange(0, 7) =~= "default"@);
        assert(occurs_at(MODES@, "default"@, 0));
        assert(MODES@.subrange(9, 13) =~= "yolo"@);
        assert(occurs_at(MODES@, "yolo"@, 9));
        assert(MODES@.subrange(15, 19) =~= "plan"@);
        assert(occurs_at(MODES@, "plan"@, 15));
        assert(MODES@.subrange(21, 25) =~= "auto"@);
        assert(occurs_at(MODES@, "auto"@, 21));
    } else {
        let g = "Unknown mode: "@;
        assert(r =~= g + args + ("\nAvailable: "@ + MODES@));
        lemma_occurs_in(g, args, "\nAvailable: "@ + MODES@);
        assert(MODES@ =~= r.skip(r.len() - MODES@.len()));
    }
}

/// The configured model of an agent is its own where it has one, and that of the
/// project otherwise.
pub proof fn law_own_model_counts_first(config: ProjectConfig, agent: Seq<char>, e: AgentEntry)
    requires
        agent_named(config.agents@, agent) == Some(e),
    ensures
        e.model is Some ==> configured_model(config, agent) == Some(e.model->0@) && own_model(
            config,
            agent,
        ) == Some(e.model->0@),
        e.model is None ==> configured_model(config, agent) == text_opt(config.agent.model)
            && own_model(config, agent) is None,
        configured_mode(config, agent) == e.mode@,
{
}

/// A session that was switched to is the active one, and the answer shows its
/// name and the start of its id; where the switch is refused nothing changes.
pub proof fn law_switch_is_told(
    m: ManagerModel,
    after: ManagerModel,
    key: Seq<char>,
    args: Seq<char>,
    reply: Seq<char>,
)
    requires
        switch_done(m, after, key, args, reply),
        well_filed(m),
    ensures
        after == m || ({
            let s = active_session(after, key)->0;
            &&& active_session(after, key) is Some
            &&& m.keys[s.id] == key
            &&& occurs(reply, shown_name(s)) && occurs(reply, short(s.id))
        }),
{
    let v = listing(m, key, None);
    if args.len() > 0 && pick(m, key, args, v, v) is Take {
        law_what_is_taken_was_asked_for(m, key, args, v, v);
        let s = m.sessions[pick(m, key, args, v, v)->Take_0];
        let h = "Switched to: "@;
        assert(reply =~= h + shown_name(s) + (" ["@ + short(s.id) + "]"@));
        lemma_occurs_in(h, shown_name(s), " ["@ + short(s.id) + "]"@);
        assert(reply =~= (h + shown_name(s) + " ["@) + short(s.id) + "]"@);
        lemma_occurs_in(h + shown_name(s) + " ["@, short(s.id), "]"@);
    }
}

} // verus!
