//! The way of a message into the engine.
//!
//! An [`Intake`] takes a message through the checks in their order: duplicates,
//! access, speech, banned words, rate, aliases, commands. What only the
//! surroundings know (whether the message was seen before, what a recording
//! says, whether the sender is too fast, whether a command was handled, whether
//! a turn runs) comes in as [`IntakeInput`]s.

use crate::config::ProjectConfig;
use crate::message::IncomingMessage;
use crate::routing::{
    allowed, aside, banned, btw_text, command_args, command_name, contains_banned_word,
    custom_prompt, expand_command, find_command, is_allowed, resolve_alias, split_command,
    unaliased,
};
use crate::text::{clone_opt, lemma_occurs_in, occurs, starts_with, text_opt, texts};
use vstd::prelude::*;
use vstd::string::*;

verus! {

/// Something to do on behalf of a message. `S` is a text.
pub enum IntakeAction<S> {
    /// Transcribe the recording at a path.
    Transcribe(S),
    /// Ask whether the sender is within the rate limit.
    CheckRate(S),
    /// Try the built-in command of a name, with its arguments.
    RunCommand(S, S),
    /// Look for a skill of a name, with its arguments.
    ResolveSkill(S, S),
    /// Ask whether a turn runs in the session of the message.
    CheckTurn,
    Reply(S),
    /// Fetch sessions from elsewhere.
    SyncPull,
    /// Hand the message to the agent.
    Dispatch,
}

/// An action by its contents.
pub open spec fn shown_intake(a: IntakeAction<String>) -> IntakeAction<Seq<char>> {
    match a {
        IntakeAction::Transcribe(s) => IntakeAction::Transcribe(s@),
        IntakeAction::CheckRate(s) => IntakeAction::CheckRate(s@),
        IntakeAction::RunCommand(a, b) => IntakeAction::RunCommand(a@, b@),
        IntakeAction::ResolveSkill(a, b) => IntakeAction::ResolveSkill(a@, b@),
        IntakeAction::CheckTurn => IntakeAction::CheckTurn,
        IntakeAction::Reply(s) => IntakeAction::Reply(s@),
        IntakeAction::SyncPull => IntakeAction::SyncPull,
        IntakeAction::Dispatch => IntakeAction::Dispatch,
    }
}

/// The contents of each action in a list.
pub open spec fn all_intake(v: Seq<IntakeAction<String>>) -> Seq<IntakeAction<Seq<char>>> {
    v.map_values(|a: IntakeAction<String>| shown_intake(a))
}

/// What came of an action.
pub enum IntakeInput {
    /// Whether the message was not seen before.
    Checked(bool),
    /// What a recording says, or what went wrong.
    Transcribed(Result<String, String>),
    /// Whether the sender is within the rate limit.
    Rated(bool),
    /// Whether a built-in command took the message.
    Handled(bool),
    /// The prompt of the skill, where there is one.
    Skill(Option<String>),
    /// Whether a turn runs in the session of the message.
    Turn(bool),
}

/// What an intake waits for.
#[derive(PartialEq, Eq, Structural, Clone, Copy, Debug)]
pub enum IntakePhase {
    Checking,
    Transcribing,
    Rating,
    Commanding,
    Resolving,
    Asking,
    /// The message is on its way to the agent.
    Ready,
    /// Nothing more happens with the message.
    Done,
}

/// Whether `input` is what an intake in `phase` waits for.
pub open spec fn awaited(phase: IntakePhase, input: IntakeInput) -> bool {
    match phase {
        IntakePhase::Checking => input is Checked,
        IntakePhase::Transcribing => input is Transcribed,
        IntakePhase::Rating => input is Rated,
        IntakePhase::Commanding => input is Handled,
        IntakePhase::Resolving => input is Skill,
        IntakePhase::Asking => input is Turn,
        _ => false,
    }
}

/// The state of an intake.
pub struct IntakeModel {
    pub text: Seq<char>,
    pub from: Seq<char>,
    pub voice: Option<Seq<char>>,
    pub phase: IntakePhase,
}

pub type Steps = Seq<IntakeAction<Seq<char>>>;

/// A message with a banned word is dropped; any other is rated.
pub open spec fn screened(m: IntakeModel, config: ProjectConfig) -> (IntakeModel, Steps) {
    if banned(m.text, texts(config.banned_words@)) {
        (IntakeModel { phase: IntakePhase::Done, ..m }, Seq::empty())
    } else {
        (
            IntakeModel { phase: IntakePhase::Rating, ..m },
            Seq::empty().push(IntakeAction::CheckRate(m.from)),
        )
    }
}

/// The message goes to the agent, after a synchronisation where that is set
/// up.
pub open spec fn dispatched(m: IntakeModel, config: ProjectConfig) -> (IntakeModel, Steps) {
    (
        IntakeModel { phase: IntakePhase::Ready, ..m },
        if config.sync_auto == Some(true) {
            Seq::empty().push(IntakeAction::SyncPull).push(IntakeAction::Dispatch)
        } else {
            Seq::empty().push(IntakeAction::Dispatch)
        },
    )
}

pub open spec fn on_checked(m: IntakeModel, config: ProjectConfig, fresh: bool) -> (
    IntakeModel,
    Steps,
) {
    if !fresh || !allowed(config.allow_from@, m.from) {
        (IntakeModel { phase: IntakePhase::Done, ..m }, Seq::empty())
    } else if m.text.len() == 0 && m.voice is Some {
        (
            IntakeModel { phase: IntakePhase::Transcribing, ..m },
            Seq::empty().push(IntakeAction::Transcribe(m.voice->0)),
        )
    } else {
        screened(m, config)
    }
}

pub open spec fn on_rated(m: IntakeModel, config: ProjectConfig, within: bool) -> (
    IntakeModel,
    Steps,
) {
    let m1 = IntakeModel { text: unaliased(m.text, config.aliases@), ..m };
    if !within {
        (
            IntakeModel { phase: IntakePhase::Done, ..m },
            Seq::empty().push(IntakeAction::Reply("🐢 慢一点~ 消息太频繁了"@)),
        )
    } else if "/"@.is_prefix_of(m1.text) {
        (
            IntakeModel { phase: IntakePhase::Commanding, ..m1 },
            Seq::empty().push(
                IntakeAction::RunCommand(command_name(m1.text), command_args(m1.text)),
            ),
        )
    } else {
        dispatched(m1, config)
    }
}

pub open spec fn on_handled(m: IntakeModel, config: ProjectConfig, handled: bool) -> (
    IntakeModel,
    Steps,
) {
    if handled {
        (IntakeModel { phase: IntakePhase::Done, ..m }, Seq::empty())
    } else {
        match find_command(config.commands@, command_name(m.text)) {
            Some(c) => dispatched(
                IntakeModel { text: custom_prompt(c.prompt@, command_args(m.text)), ..m },
                config,
            ),
            None => (
                IntakeModel { phase: IntakePhase::Resolving, ..m },
                Seq::empty().push(
                    IntakeAction::ResolveSkill(command_name(m.text), command_args(m.text)),
                ),
            ),
        }
    }
}

/// A command that nobody knows is answered, and that is all.
pub open spec fn unknown(m: IntakeModel) -> (IntakeModel, Steps) {
    (
        IntakeModel { phase: IntakePhase::Done, ..m },
        Seq::empty().push(
            IntakeAction::Reply(
                "❓ 未知命令: /"@ + command_name(m.text) + "\n输入 /help 查看可用命令。"@,
            ),
        ),
    )
}

/// What is neither a command nor a skill may still be meant for a running turn.
pub open spec fn on_skill(m: IntakeModel, config: ProjectConfig, prompt: Option<Seq<char>>) -> (
    IntakeModel,
    Steps,
) {
    match prompt {
        Some(p) => dispatched(IntakeModel { text: p, ..m }, config),
        None => if aside(m.text) is Some {
            (
                IntakeModel { phase: IntakePhase::Asking, ..m },
                Seq::empty().push(IntakeAction::CheckTurn),
            )
        } else {
            unknown(m)
        },
    }
}

/// A text for the running turn is handed over where one runs.
pub open spec fn on_turn(m: IntakeModel, config: ProjectConfig, running: bool) -> (
    IntakeModel,
    Steps,
) {
    if running {
        dispatched(m, config)
    } else {
        unknown(m)
    }
}

/// The next state of an intake, and what is to be done, for an input that it
/// waits for.
pub open spec fn next_intake(m: IntakeModel, config: ProjectConfig, input: IntakeInput) -> (
    IntakeModel,
    Steps,
) {
    match input {
        IntakeInput::Checked(fresh) => on_checked(m, config, fresh),
        IntakeInput::Transcribed(Ok(text)) => screened(
            IntakeModel { text: text@, ..m },
            config,
        ),
        IntakeInput::Transcribed(Err(e)) => (
            IntakeModel { phase: IntakePhase::Done, ..m },
            Seq::empty().push(IntakeAction::Reply("🎙️ 语音识别失败: "@ + e@)),
        ),
        IntakeInput::Rated(within) => on_rated(m, config, within),
        IntakeInput::Handled(handled) => on_handled(m, config, handled),
        IntakeInput::Skill(prompt) => on_skill(m, config, text_opt(prompt)),
        IntakeInput::Turn(running) => on_turn(m, config, running),
    }
}

/// A message on its way into the engine.
pub struct Intake {
    pub msg: IncomingMessage,
    pub phase: IntakePhase,
}

impl View for Intake {
    type V = IntakeModel;

    open spec fn view(&self) -> IntakeModel {
        IntakeModel {
            text: self.msg.text@,
            from: self.msg.from@,
            voice: text_opt(self.msg.voice),
            phase: self.phase,
        }
    }
}

/// Whether an intake is in a sound state: a command is run only of a text that
/// starts with a slash.
pub open spec fn sound(m: IntakeModel) -> bool {
    m.phase == IntakePhase::Commanding || m.phase == IntakePhase::Resolving || m.phase
        == IntakePhase::Asking ==> m.text.len() > 0
}

/// Whether an intake and its actions are those of the model, with everything
/// but the text of the message as it was.
pub open spec fn follows(
    before: Intake,
    r: (Intake, Vec<IntakeAction<String>>),
    want: (IntakeModel, Steps),
) -> bool {
    &&& r.0@ == want.0
    &&& all_intake(r.1@) == want.1
    &&& r.0.msg == (IncomingMessage { text: r.0.msg.text, ..before.msg })
}

fn no_actions() -> (r: Vec<IntakeAction<String>>)
    ensures
        all_intake(r@) == Seq::<IntakeAction<Seq<char>>>::empty(),
{
    let r: Vec<IntakeAction<String>> = Vec::new();
    assert(all_intake(r@) =~= Seq::<IntakeAction<Seq<char>>>::empty());
    r
}

fn also(out: Vec<IntakeAction<String>>, a: IntakeAction<String>) -> (r: Vec<IntakeAction<String>>)
    ensures
        all_intake(r@) == all_intake(out@).push(shown_intake(a)),
{
    let mut r: Vec<IntakeAction<String>> = out;
    assert(all_intake(r@.push(a)) =~= all_intake(r@).push(shown_intake(a)));
    r.push(a);
    r
}

impl Intake {
    /// A message that has just come in.
    pub fn new(msg: IncomingMessage) -> (r: Intake)
        ensures
            r.msg == msg,
            r.phase == IntakePhase::Checking,
            sound(r@),
    {
        Intake { msg, phase: IntakePhase::Checking }
    }

    fn finish(self, out: Vec<IntakeAction<String>>) -> (r: (Intake, Vec<IntakeAction<String>>))
        ensures
            follows(
                self,
                r,
                (IntakeModel { phase: IntakePhase::Done, ..self@ }, all_intake(out@)),
            ),
    {
        let mut t: Intake = self;
        t.phase = IntakePhase::Done;
        (t, out)
    }

    fn screen(self, config: &ProjectConfig) -> (r: (Intake, Vec<IntakeAction<String>>))
        ensures
            follows(self, r, screened(self@, *config)),
    {
        if contains_banned_word(self.msg.text.as_str(), &config.banned_words) {
            return self.finish(no_actions());
        }
        let mut t: Intake = self;
        t.phase = IntakePhase::Rating;
        let from: String = t.msg.from.clone();
        (t, also(no_actions(), IntakeAction::CheckRate(from)))
    }

    fn dispatch(self, config: &ProjectConfig) -> (r: (Intake, Vec<IntakeAction<String>>))
        ensures
            follows(self, r, dispatched(self@, *config)),
    {
        let sync: bool = match config.sync_auto {
            Some(auto) => auto,
            None => false,
        };
        let mut t: Intake = self;
        t.phase = IntakePhase::Ready;
        if sync {
            let out: Vec<IntakeAction<String>> = also(no_actions(), IntakeAction::SyncPull);
            (t, also(out, IntakeAction::Dispatch))
        } else {
            (t, also(no_actions(), IntakeAction::Dispatch))
        }
    }

    fn checked(self, config: &ProjectConfig, fresh: bool) -> (r: (
        Intake,
        Vec<IntakeAction<String>>,
    ))
        ensures
            follows(self, r, on_checked(self@, *config, fresh)),
    {
        if !fresh || !is_allowed(config.allow_from.as_str(), self.msg.from.as_str()) {
            return self.finish(no_actions());
        }
        if self.msg.text.as_str().is_empty() {
            let voice: Option<String> = clone_opt(&self.msg.voice);
            if let Some(path) = voice {
                let mut t: Intake = self;
                t.phase = IntakePhase::Transcribing;
                return (t, also(no_actions(), IntakeAction::Transcribe(path)));
            }
        }
        self.screen(config)
    }

    fn transcribed(self, config: &ProjectConfig, result: Result<String, String>) -> (r: (
        Intake,
        Vec<IntakeAction<String>>,
    ))
        ensures
            follows(self, r, next_intake(self@, *config, IntakeInput::Transcribed(result))),
    {
        match result {
            Ok(text) => {
                let mut t: Intake = self;
                t.msg.text = text;
                t.screen(config)
            },
            Err(e) => {
                let mut reply: String = "🎙️ 语音识别失败: ".to_owned();
                reply.append(e.as_str());
                self.finish(also(no_actions(), IntakeAction::Reply(reply)))
            },
        }
    }

    fn rated(self, config: &ProjectConfig, within: bool) -> (r: (
        Intake,
        Vec<IntakeAction<String>>,
    ))
        ensures
            follows(self, r, on_rated(self@, *config, within)),
    {
        if !within {
            let reply: String = "🐢 慢一点~ 消息太频繁了".to_owned();
            return self.finish(also(no_actions(), IntakeAction::Reply(reply)));
        }
        let msg: IncomingMessage = resolve_alias(self.msg, &config.aliases);
        let mut t: Intake = Intake { msg, phase: self.phase };
        if starts_with(t.msg.text.as_str(), "/") {
            proof {
                reveal_strlit("/");
            }
            let (name, args): (String, String) = split_command(t.msg.text.as_str());
            t.phase = IntakePhase::Commanding;
            (t, also(no_actions(), IntakeAction::RunCommand(name, args)))
        } else {
            t.dispatch(config)
        }
    }

    fn handled(self, config: &ProjectConfig, handled: bool) -> (r: (
        Intake,
        Vec<IntakeAction<String>>,
    ))
        requires
            self@.text.len() > 0,
        ensures
            follows(self, r, on_handled(self@, *config, handled)),
    {
        if handled {
            return self.finish(no_actions());
        }
        let (name, args): (String, String) = split_command(self.msg.text.as_str());
        let mut t: Intake = self;
        match expand_command(&config.commands, name.as_str(), args.as_str()) {
            Some(prompt) => {
                t.msg.text = prompt;
                t.dispatch(config)
            },
            None => {
                t.phase = IntakePhase::Resolving;
                (t, also(no_actions(), IntakeAction::ResolveSkill(name, args)))
            },
        }
    }

    fn resolved(self, config: &ProjectConfig, prompt: Option<String>) -> (r: (
        Intake,
        Vec<IntakeAction<String>>,
    ))
        requires
            self@.text.len() > 0,
        ensures
            follows(self, r, on_skill(self@, *config, text_opt(prompt))),
    {
        match prompt {
            Some(p) => {
                let mut t: Intake = self;
                t.msg.text = p;
                t.dispatch(config)
            },
            None => if btw_text(self.msg.text.as_str()).is_some() {
                let mut t: Intake = self;
                t.phase = IntakePhase::Asking;
                (t, also(no_actions(), IntakeAction::CheckTurn))
            } else {
                self.refuse()
            },
        }
    }

    fn refuse(self) -> (r: (Intake, Vec<IntakeAction<String>>))
        requires
            self@.text.len() > 0,
        ensures
            follows(self, r, unknown(self@)),
    {
        let (name, _): (String, String) = split_command(self.msg.text.as_str());
        let mut reply: String = "❓ 未知命令: /".to_owned();
        reply.append(name.as_str());
        reply.append("\n输入 /help 查看可用命令。");
        self.finish(also(no_actions(), IntakeAction::Reply(reply)))
    }

    fn asked(self, config: &ProjectConfig, running: bool) -> (r: (
        Intake,
        Vec<IntakeAction<String>>,
    ))
        requires
            self@.text.len() > 0,
        ensures
            follows(self, r, on_turn(self@, *config, running)),
    {
        if running {
            self.dispatch(config)
        } else {
            self.refuse()
        }
    }

    /// Takes an input that the intake waits for; gives the intake afterwards
    /// and what is to be done.
    pub fn step(self, config: &ProjectConfig, input: IntakeInput) -> (r: (
        Intake,
        Vec<IntakeAction<String>>,
    ))
        requires
            sound(self@),
            awaited(self@.phase, input),
        ensures
            r.0@ == next_intake(self@, *config, input).0,
            all_intake(r.1@) == next_intake(self@, *config, input).1,
            r.0.msg == (IncomingMessage { text: r.0.msg.text, ..self.msg }),
            sound(r.0@),
    {
        proof {
            law_intake_stays_sound(self@, *config, input);
        }
        match input {
            IntakeInput::Checked(fresh) => self.checked(config, fresh),
            IntakeInput::Transcribed(result) => self.transcribed(config, result),
            IntakeInput::Rated(within) => self.rated(config, within),
            IntakeInput::Handled(handled) => self.handled(config, handled),
            IntakeInput::Skill(prompt) => self.resolved(config, prompt),
            IntakeInput::Turn(running) => self.asked(config, running),
        }
    }
}

// ---------------------------------------------------------------------------
// Laws
// ---------------------------------------------------------------------------

/// An intake stays in a sound state.
pub proof fn law_intake_stays_sound(m: IntakeModel, config: ProjectConfig, input: IntakeInput)
    requires
        sound(m),
        awaited(m.phase, input),
    ensures
        sound(next_intake(m, config, input).0),
{
    reveal_strlit("/");
}

/// A message that was seen before, or whose sender is not let in, is dropped
/// without a word.
pub proof fn law_unwanted_messages_are_silent(m: IntakeModel, config: ProjectConfig, fresh: bool)
    requires
        !fresh || !allowed(config.allow_from@, m.from),
    ensures
        on_checked(m, config, fresh).0.phase == IntakePhase::Done,
        on_checked(m, config, fresh).1 == Seq::<IntakeAction<Seq<char>>>::empty(),
{
}

/// Nothing reaches the agent without having been let in, screened for banned
/// words and rated: a message is handed over only after the rate check, and it
/// comes to the rate check only without a banned word.
pub proof fn law_checks_come_first(m: IntakeModel, config: ProjectConfig, input: IntakeInput)
    requires
        awaited(m.phase, input),
    ensures
        next_intake(m, config, input).0.phase == IntakePhase::Ready ==> m.phase
            == IntakePhase::Rating || m.phase == IntakePhase::Commanding || m.phase
            == IntakePhase::Resolving || m.phase == IntakePhase::Asking,
        next_intake(m, config, input).0.phase == IntakePhase::Asking ==> m.phase
            == IntakePhase::Resolving,
        next_intake(m, config, input).0.phase == IntakePhase::Commanding || next_intake(
            m,
            config,
            input,
        ).0.phase == IntakePhase::Resolving ==> m.phase == IntakePhase::Rating || m.phase
            == IntakePhase::Commanding,
        next_intake(m, config, input).0.phase == IntakePhase::Rating ==> (m.phase
            == IntakePhase::Checking || m.phase == IntakePhase::Transcribing) && !banned(
            next_intake(m, config, input).0.text,
            texts(config.banned_words@),
        ),
        next_intake(m, config, input).0.phase == IntakePhase::Transcribing ==> m.phase
            == IntakePhase::Checking && allowed(config.allow_from@, m.from),
        m.phase == IntakePhase::Checking && next_intake(m, config, input).0.phase
            == IntakePhase::Rating ==> allowed(config.allow_from@, m.from),
{
}

/// `/btw` reaches the running turn: where no alias, command or skill takes it
/// and a turn runs, the message is handed over with its text as it is.
pub proof fn law_aside_reaches_the_running_turn(m: IntakeModel, config: ProjectConfig)
    requires
        m.phase == IntakePhase::Rating,
        unaliased(m.text, config.aliases@) == m.text,
        "/"@.is_prefix_of(m.text),
        aside(m.text) is Some,
        find_command(config.commands@, command_name(m.text)) is None,
    ensures
        ({
            let (m1, _) = next_intake(m, config, IntakeInput::Rated(true));
            let (m2, _) = next_intake(m1, config, IntakeInput::Handled(false));
            let (m3, _) = next_intake(m2, config, IntakeInput::Skill(None));
            let (m4, steps) = next_intake(m3, config, IntakeInput::Turn(true));
            &&& awaited(m1.phase, IntakeInput::Handled(false))
            &&& awaited(m2.phase, IntakeInput::Skill(None))
            &&& awaited(m3.phase, IntakeInput::Turn(true))
            &&& m4.phase == IntakePhase::Ready
            &&& m4.text == m.text
            &&& steps.last() == IntakeAction::<Seq<char>>::Dispatch
        }),
{
}

/// A voice message without a text is transcribed, and what was heard is rated
/// in place of its text, for its sender.
pub proof fn law_voice_is_heard(m: IntakeModel, config: ProjectConfig, text: String)
    requires
        m.text.len() == 0,
        m.voice is Some,
        allowed(config.allow_from@, m.from),
        !banned(text@, texts(config.banned_words@)),
    ensures
        ({
            let (m1, s1) = next_intake(m, config, IntakeInput::Checked(true));
            let (m2, s2) = next_intake(m1, config, IntakeInput::Transcribed(Ok(text)));
            &&& m1.phase == IntakePhase::Transcribing
            &&& s1.len() == 1 && s1[0] == IntakeAction::Transcribe(m.voice->0)
            &&& m2.phase == IntakePhase::Rating && m2.text == text@
            &&& s2.len() == 1 && s2[0] == IntakeAction::CheckRate(m.from)
        }),
{
}

/// A message with a text is rated as it is, for its sender, also where it brings
/// a recording.
pub proof fn law_text_counts_before_voice(m: IntakeModel, config: ProjectConfig)
    requires
        m.text.len() > 0,
        allowed(config.allow_from@, m.from),
        !banned(m.text, texts(config.banned_words@)),
    ensures
        ({
            let (after, steps) = next_intake(m, config, IntakeInput::Checked(true));
            &&& after.phase == IntakePhase::Rating && after.text == m.text
            &&& steps.len() == 1 && steps[0] == IntakeAction::CheckRate(m.from)
        }),
{
}

/// A recording that could not be heard is told of, with the reason, and nothing
/// goes to the agent.
pub proof fn law_failed_hearing_is_told(m: IntakeModel, config: ProjectConfig, e: String)
    ensures
        ({
            let (after, steps) = next_intake(m, config, IntakeInput::Transcribed(Err(e)));
            &&& after.phase == IntakePhase::Done
            &&& steps.len() == 1 && steps[0] is Reply && occurs(steps[0]->Reply_0, e@)
        }),
{
    let head = "🎙️ 语音识别失败: "@;
    lemma_occurs_in(head, e@, Seq::empty());
    assert(head + e@ + Seq::<char>::empty() =~= head + e@);
}

/// One message too many is answered and goes nowhere.
pub proof fn law_too_many_messages_are_refused(m: IntakeModel, config: ProjectConfig)
    ensures
        ({
            let (after, steps) = next_intake(m, config, IntakeInput::Rated(false));
            &&& after.phase == IntakePhase::Done
            &&& steps.len() == 1 && steps[0] is Reply
        }),
{
}

/// A text that is no command goes to the agent, with the alias in it resolved
/// and otherwise as it is.
pub proof fn law_plain_text_goes_to_the_agent(m: IntakeModel, config: ProjectConfig)
    requires
        !"/"@.is_prefix_of(unaliased(m.text, config.aliases@)),
    ensures
        ({
            let (after, steps) = next_intake(m, config, IntakeInput::Rated(true));
            &&& after.phase == IntakePhase::Ready
            &&& after.text == unaliased(m.text, config.aliases@)
            &&& steps.last() == IntakeAction::<Seq<char>>::Dispatch
        }),
{
}

/// A text that starts with a slash is run as a command: by the name behind the
/// slash, with the arguments behind the name. Nothing goes to the agent yet.
pub proof fn law_command_is_run(m: IntakeModel, config: ProjectConfig)
    requires
        "/"@.is_prefix_of(unaliased(m.text, config.aliases@)),
    ensures
        ({
            let text = unaliased(m.text, config.aliases@);
            let (after, steps) = next_intake(m, config, IntakeInput::Rated(true));
            &&& after.phase == IntakePhase::Commanding && after.text == text
            &&& steps.len() == 1 && steps[0] == IntakeAction::RunCommand(
                command_name(text),
                command_args(text),
            )
        }),
{
}

/// A command that was carried out is all there was to do. One that was not is
/// the custom command of its name, whose prompt goes to the agent, or else is
/// looked for among the skills.
pub proof fn law_custom_command_reaches_the_agent(m: IntakeModel, config: ProjectConfig)
    ensures
        next_intake(m, config, IntakeInput::Handled(true)).0.phase == IntakePhase::Done,
        next_intake(m, config, IntakeInput::Handled(true)).1.len() == 0,
        ({
            let (after, steps) = next_intake(m, config, IntakeInput::Handled(false));
            match find_command(config.commands@, command_name(m.text)) {
                Some(c) => {
                    &&& after.phase == IntakePhase::Ready
                    &&& after.text == custom_prompt(c.prompt@, command_args(m.text))
                    &&& steps.last() == IntakeAction::<Seq<char>>::Dispatch
                },
                None => {
                    &&& after.phase == IntakePhase::Resolving && after.text == m.text
                    &&& steps.len() == 1 && steps[0] == IntakeAction::ResolveSkill(
                        command_name(m.text),
                        command_args(m.text),
                    )
                },
            }
        }),
{
}

/// The prompt of a skill goes to the agent in place of the command.
pub proof fn law_skill_reaches_the_agent(m: IntakeModel, config: ProjectConfig, prompt: String)
    ensures
        ({
            let (after, steps) = next_intake(m, config, IntakeInput::Skill(Some(prompt)));
            &&& after.phase == IntakePhase::Ready && after.text == prompt@
            &&& steps.last() == IntakeAction::<Seq<char>>::Dispatch
        }),
{
}

/// A command that nobody knows is answered with its name and goes nowhere.
pub proof fn law_unknown_command_is_told(m: IntakeModel, config: ProjectConfig)
    requires
        aside(m.text) is None,
    ensures
        ({
            let (after, steps) = next_intake(m, config, IntakeInput::Skill(None));
            &&& after.phase == IntakePhase::Done
            &&& steps.len() == 1 && steps[0] is Reply && occurs(
                steps[0]->Reply_0,
                "/"@ + command_name(m.text),
            )
        }),
{
    reveal_strlit("❓ 未知命令: /");
    reveal_strlit("❓ 未知命令: ");
    reveal_strlit("/");
    let name = command_name(m.text);
    let tail = "\n输入 /help 查看可用命令。"@;
    assert("❓ 未知命令: /"@ =~= "❓ 未知命令: "@ + "/"@);
    assert("❓ 未知命令: /"@ + name + tail =~= "❓ 未知命令: "@ + ("/"@ + name) + tail);
    lemma_occurs_in("❓ 未知命令: "@, "/"@ + name, tail);
}

/// Sessions are pulled before a message goes to the agent where that is switched
/// on, and not otherwise.
pub proof fn law_sessions_are_pulled_first(m: IntakeModel, config: ProjectConfig, input: IntakeInput)
    requires
        awaited(m.phase, input),
        next_intake(m, config, input).0.phase == IntakePhase::Ready,
    ensures
        ({
            let steps = next_intake(m, config, input).1;
            &&& steps.last() == IntakeAction::<Seq<char>>::Dispatch
            &&& steps.contains(IntakeAction::SyncPull) <==> config.sync_auto == Some(true)
        }),
{
    let steps = next_intake(m, config, input).1;
    if config.sync_auto == Some(true) {
        assert(steps[0] == IntakeAction::<Seq<char>>::SyncPull);
    }
}

} // verus!
