//! The rules by which a message is let in, rewritten and keyed.

use crate::config::{AliasConfig, CommandConfig};
use crate::message::{ImageAttachment, IncomingMessage};
use crate::text::{
    after_word, contains, cut_word, first_word, is_space, joined, law_trimmed_stands_in_the_text,
    lemma_joined_split, lemma_occurs_in, lemma_texts_push, lemma_word_len, lowercased, occurs,
    occurs_at, same, skip, split, split_on, starts_with, text_opt, texts, to_lower, trim,
    trim_start, trimmed,
};
use vstd::prelude::*;
use vstd::string::*;

verus! {

// ---------------------------------------------------------------------------
// Who may write
// ---------------------------------------------------------------------------

/// Whether a list of user ids, separated by commas, lets a user in; `*` lets
/// everyone in.
pub open spec fn allowed(allow_from: Seq<char>, user_id: Seq<char>) -> bool {
    allow_from == "*"@ || exists|i: int|
        0 <= i < split(allow_from, ',').len() && trimmed(#[trigger] split(allow_from, ',')[i])
            == user_id
}

/// Whether a user is in the allow-list.
pub fn is_allowed(allow_from: &str, user_id: &str) -> (r: bool)
    ensures
        r == allowed(allow_from@, user_id@),
{
    if same(allow_from, "*") {
        return true;
    }
    let parts: Vec<String> = split_on(allow_from, ',');
    let ghost all = split(allow_from@, ',');
    let mut i: usize = 0;
    while i < parts.len()
        invariant
            i <= parts.len(),
            all == split(allow_from@, ','),
            texts(parts@) == all,
            forall|k: int| 0 <= k < i ==> trimmed(#[trigger] all[k]) != user_id@,
        decreases parts.len() - i,
    {
        assert(all[i as int] == parts[i as int]@);
        if same(trim(parts[i].as_str()), user_id) {
            assert(trimmed(split(allow_from@, ',')[i as int]) == user_id@);
            return true;
        }
        i += 1;
    }
    false
}

/// The ids that an allow-list names; nothing where it lets everyone in.
pub open spec fn allow_list(list: Option<Seq<char>>) -> Option<Seq<Seq<char>>> {
    match list {
        Some(s) => if s == "*"@ {
            None
        } else {
            Some(split(s, ',').map_values(|x: Seq<char>| trimmed(x)))
        },
        None => None,
    }
}

/// Whether someone is on an allow-list; without a list everyone is.
pub open spec fn on_list(allow_from: Option<Seq<Seq<char>>>, id: Seq<char>) -> bool {
    allow_from is Some ==> allow_from->0.contains(id)
}

/// The trimmed parts of a list separated by commas.
pub fn comma_list(s: &str) -> (r: Vec<String>)
    ensures
        texts(r@) == split(s@, ',').map_values(|x: Seq<char>| trimmed(x)),
{
    let parts: Vec<String> = split_on(s, ',');
    let ghost all = split(s@, ',');
    let ghost want = all.map_values(|x: Seq<char>| trimmed(x));
    let mut r: Vec<String> = Vec::new();
    let mut i: usize = 0;
    while i < parts.len()
        invariant
            i <= parts.len(),
            texts(parts@) == all,
            want == all.map_values(|x: Seq<char>| trimmed(x)),
            texts(r@) == want.take(i as int),
        decreases parts.len() - i,
    {
        let id: String = trim(parts[i].as_str()).to_owned();
        proof {
            assert(all[i as int] == parts[i as int]@);
            lemma_texts_push(r@, id);
            assert(want.take(i as int).push(id@) =~= want.take(i + 1));
        }
        r.push(id);
        i += 1;
    }
    assert(want.take(parts.len() as int) =~= want);
    r
}

/// The ids that an allow-list names.
pub fn parse_allow_list(list: &Option<String>) -> (r: Option<Vec<String>>)
    ensures
        match r {
            Some(ids) => allow_list(text_opt(*list)) == Some(texts(ids@)),
            None => allow_list(text_opt(*list)) is None,
        },
{
    match list {
        Some(s) => if same(s.as_str(), "*") {
            None
        } else {
            Some(comma_list(s.as_str()))
        },
        None => None,
    }
}

// ---------------------------------------------------------------------------
// Session keys
// ---------------------------------------------------------------------------

/// The key of a message's session: by its channel in a group, by its sender
/// otherwise.
pub open spec fn session_key(
    platform: Seq<char>,
    from: Seq<char>,
    is_group: bool,
    channel_id: Option<Seq<char>>,
) -> Seq<char> {
    platform + ":"@ + (if is_group && channel_id is Some {
        channel_id->0
    } else {
        from
    })
}

/// Derives the session key from the platform's name and the message.
pub fn make_session_key(platform: &str, msg: &IncomingMessage) -> (r: String)
    ensures
        r@ == session_key(platform@, msg.from@, msg.is_group, text_opt(msg.channel_id)),
{
    let mut r: String = platform.to_owned();
    r.append(":");
    if msg.is_group {
        match &msg.channel_id {
            Some(c) => r.append(c.as_str()),
            None => r.append(msg.from.as_str()),
        }
    } else {
        r.append(msg.from.as_str());
    }
    r
}

/// Messages of one channel share a session, whoever sends them.
pub proof fn law_group_shares_a_session(
    platform: Seq<char>,
    a: Seq<char>,
    b: Seq<char>,
    channel: Seq<char>,
)
    ensures
        session_key(platform, a, true, Some(channel)) == session_key(
            platform,
            b,
            true,
            Some(channel),
        ),
{
}

/// In direct messages each sender has a session of their own.
pub proof fn law_senders_have_their_own_sessions(
    platform: Seq<char>,
    a: Seq<char>,
    b: Seq<char>,
    channel: Option<Seq<char>>,
)
    requires
        a != b,
    ensures
        session_key(platform, a, false, channel) != session_key(platform, b, false, channel),
{
    let p = platform + ":"@;
    if p + a == p + b {
        assert((p + a).skip(p.len() as int) =~= a);
        assert((p + b).skip(p.len() as int) =~= b);
    }
}

// ---------------------------------------------------------------------------
// Aliases
// ---------------------------------------------------------------------------

/// Whether a trimmed text is an alias, alone or with something behind it.
pub open spec fn triggers(text: Seq<char>, trigger: Seq<char>) -> bool {
    text == trigger || (trigger + " "@).is_prefix_of(text)
}

/// The text that an alias stands for.
pub open spec fn expanded(text: Seq<char>, alias: AliasConfig) -> Seq<char> {
    let rest = trimmed(text.skip(alias.trigger@.len() as int));
    if rest.len() == 0 {
        alias.command@
    } else {
        alias.command@ + " "@ + rest
    }
}

/// A text with the first alias that it starts with replaced by its command.
pub open spec fn unaliased(text: Seq<char>, aliases: Seq<AliasConfig>) -> Seq<char>
    decreases aliases.len(),
{
    if aliases.len() == 0 {
        text
    } else if triggers(trimmed(text), aliases[0].trigger@) {
        expanded(trimmed(text), aliases[0])
    } else {
        unaliased(text, aliases.skip(1))
    }
}

fn alias_matches(text: &str, trigger: &str) -> (r: bool)
    ensures
        r == triggers(text@, trigger@),
{
    if same(text, trigger) {
        return true;
    }
    let mut p: String = trigger.to_owned();
    p.append(" ");
    starts_with(text, p.as_str())
}

/// Rewrites a message that starts with an alias as the slash command that the
/// alias stands for; everything else of it stays.
pub fn resolve_alias(msg: IncomingMessage, aliases: &Vec<AliasConfig>) -> (r: IncomingMessage)
    ensures
        r.text@ == unaliased(msg.text@, aliases@),
        r == (IncomingMessage { text: r.text, ..msg }),
{
    let mut i: usize = 0;
    assert(aliases@.skip(0) =~= aliases@);
    while i < aliases.len()
        invariant
            i <= aliases.len(),
            unaliased(msg.text@, aliases@) == unaliased(msg.text@, aliases@.skip(i as int)),
        decreases aliases.len() - i,
    {
        let text: &str = trim(msg.text.as_str());
        let ghost rest = aliases@.skip(i as int);
        assert(rest[0] == aliases[i as int]);
        if alias_matches(text, aliases[i].trigger.as_str()) {
            let n: usize = aliases[i].trigger.as_str().unicode_len();
            proof {
                let t = aliases[i as int].trigger@;
                if (t + " "@).is_prefix_of(text@) {
                    assert((t + " "@).len() <= text@.len());
                }
            }
            let behind: &str = trim(skip(text, n));
            let mut command: String = aliases[i].command.clone();
            if !behind.is_empty() {
                command.append(" ");
                command.append(behind);
            }
            let mut r: IncomingMessage = msg;
            r.text = command;
            return r;
        }
        assert(rest.skip(1) =~= aliases@.skip(i + 1));
        i += 1;
    }
    msg
}

// ---------------------------------------------------------------------------
// Banned words
// ---------------------------------------------------------------------------

/// Whether one of the words occurs in a text.
pub open spec fn holds_any(text: Seq<char>, words: Seq<Seq<char>>) -> bool {
    exists|i: int| 0 <= i < words.len() && occurs(text, #[trigger] words[i])
}

/// Words in lowercase.
pub open spec fn lowered_words(words: Seq<Seq<char>>) -> Seq<Seq<char>> {
    words.map_values(|w: Seq<char>| lowercased(w))
}

/// Whether one of the words occurs in a text, in whatever case.
pub open spec fn banned(text: Seq<char>, words: Seq<Seq<char>>) -> bool {
    holds_any(lowercased(text), lowered_words(words))
}

/// Whether one of the words occurs in a text.
pub fn contains_any(text: &str, words: &Vec<String>) -> (r: bool)
    ensures
        r == holds_any(text@, texts(words@)),
{
    let ghost all = texts(words@);
    let mut i: usize = 0;
    while i < words.len()
        invariant
            i <= words.len(),
            all == texts(words@),
            forall|k: int| 0 <= k < i ==> !occurs(text@, #[trigger] all[k]),
        decreases words.len() - i,
    {
        assert(all[i as int] == words[i as int]@);
        if contains(text, words[i].as_str()) {
            return true;
        }
        i += 1;
    }
    false
}

/// Whether the text contains a banned word, whatever the case of either.
pub fn contains_banned_word(text: &str, banned_words: &Vec<String>) -> (r: bool)
    ensures
        r == banned(text@, texts(banned_words@)),
{
    let ghost words = texts(banned_words@);
    let ghost want = lowered_words(words);
    let mut lower: Vec<String> = Vec::new();
    let mut i: usize = 0;
    assert(texts(lower@) =~= want.take(0));
    while i < banned_words.len()
        invariant
            i <= banned_words.len(),
            words == texts(banned_words@),
            want == lowered_words(words),
            texts(lower@) == want.take(i as int),
        decreases banned_words.len() - i,
    {
        let w: String = to_lower(banned_words[i].as_str());
        proof {
            assert(words[i as int] == banned_words[i as int]@);
            lemma_texts_push(lower@, w);
            assert(want.take(i as int).push(w@) =~= want.take(i + 1));
        }
        lower.push(w);
        i += 1;
    }
    assert(want.take(i as int) =~= want);
    let t: String = to_lower(text);
    contains_any(t.as_str(), &lower)
}

// ---------------------------------------------------------------------------
// Prompts
// ---------------------------------------------------------------------------

/// A prompt with a note on one more image.
pub open spec fn with_image(prompt: Seq<char>, filename: Seq<char>) -> Seq<char> {
    if prompt.len() == 0 {
        "The user sent an image: "@ + filename
    } else {
        prompt + "\n\nThe user sent an image: "@ + filename
    }
}

/// A text with a note on each image.
pub open spec fn prompt_of(text: Seq<char>, images: Seq<ImageAttachment>) -> Seq<char>
    decreases images.len(),
{
    if images.len() == 0 {
        text
    } else {
        with_image(prompt_of(text, images.drop_last()), images.last().filename@)
    }
}

/// The prompt of a message: its text, and a reference to each image.
pub fn build_prompt(msg: &IncomingMessage) -> (r: String)
    ensures
        r@ == prompt_of(msg.text@, msg.images@),
{
    let mut prompt: String = msg.text.clone();
    let mut i: usize = 0;
    assert(msg.images@.take(0) =~= Seq::empty());
    while i < msg.images.len()
        invariant
            i <= msg.images.len(),
            prompt@ == prompt_of(msg.text@, msg.images@.take(i as int)),
        decreases msg.images.len() - i,
    {
        assert(msg.images@.take(i + 1).drop_last() =~= msg.images@.take(i as int));
        if prompt.as_str().is_empty() {
            prompt = "The user sent an image: ".to_owned();
        } else {
            prompt.append("\n\nThe user sent an image: ");
        }
        prompt.append(msg.images[i].filename.as_str());
        i += 1;
    }
    assert(msg.images@.take(msg.images.len() as int) =~= msg.images@);
    prompt
}

// ---------------------------------------------------------------------------
// Commands
// ---------------------------------------------------------------------------

/// The name of the command in a text that starts with a slash.
pub open spec fn command_name(text: Seq<char>) -> Seq<char> {
    first_word(text.skip(1))
}

/// What stands behind the name of the command.
pub open spec fn command_args(text: Seq<char>) -> Seq<char> {
    trimmed(after_word(text.skip(1)))
}

/// Splits a text that starts with a slash into the command's name and its
/// trimmed arguments.
pub fn split_command(text: &str) -> (r: (String, String))
    requires
        text@.len() > 0,
    ensures
        r.0@ == command_name(text@),
        r.1@ == command_args(text@),
{
    let (name, rest): (&str, &str) = cut_word(skip(text, 1));
    (name.to_owned(), trim(rest).to_owned())
}

/// The prompt of a custom command with the user's arguments.
pub open spec fn custom_prompt(prompt: Seq<char>, args: Seq<char>) -> Seq<char> {
    if args.len() == 0 {
        prompt
    } else {
        prompt + "\n\nUser arguments: "@ + args
    }
}

/// The first custom command of a name.
pub open spec fn find_command(commands: Seq<CommandConfig>, name: Seq<char>) -> Option<
    CommandConfig,
>
    decreases commands.len(),
{
    if commands.len() == 0 {
        None
    } else if commands[0].name@ == name {
        Some(commands[0])
    } else {
        find_command(commands.skip(1), name)
    }
}

/// The prompt that a custom command stands for, where there is one of that
/// name.
pub fn expand_command(commands: &Vec<CommandConfig>, name: &str, args: &str) -> (r: Option<String>)
    ensures
        match find_command(commands@, name@) {
            Some(c) => r is Some && r->0@ == custom_prompt(c.prompt@, args@),
            None => r is None,
        },
{
    let mut i: usize = 0;
    assert(commands@.skip(0) =~= commands@);
    while i < commands.len()
        invariant
            i <= commands.len(),
            find_command(commands@, name@) == find_command(commands@.skip(i as int), name@),
        decreases commands.len() - i,
    {
        let ghost rest = commands@.skip(i as int);
        assert(rest[0] == commands[i as int]);
        if same(commands[i].name.as_str(), name) {
            let mut prompt: String = commands[i].prompt.clone();
            if !args.is_empty() {
                prompt.append("\n\nUser arguments: ");
                prompt.append(args);
            }
            return Some(prompt);
        }
        assert(rest.skip(1) =~= commands@.skip(i + 1));
        i += 1;
    }
    None
}

/// The text that a user wants to add to a running turn.
pub open spec fn aside(text: Seq<char>) -> Option<Seq<char>> {
    let t = trimmed(text);
    if "/btw "@.is_prefix_of(t) || "/btw\n"@.is_prefix_of(t) {
        let said = trimmed(t.skip(4));
        if said.len() > 0 {
            Some(said)
        } else {
            None
        }
    } else {
        None
    }
}

/// The text behind `/btw`, where a message starts with it.
pub fn btw_text(text: &str) -> (r: Option<String>)
    ensures
        text_opt(r) == aside(text@),
{
    let t: &str = trim(text);
    if starts_with(t, "/btw ") || starts_with(t, "/btw\n") {
        proof {
            reveal_strlit("/btw ");
            reveal_strlit("/btw\n");
        }
        let said: &str = trim(skip(t, 4));
        if !said.is_empty() {
            return Some(said.to_owned());
        }
    }
    None
}

// ---------------------------------------------------------------------------
// Answers to a permission request
// ---------------------------------------------------------------------------

/// The answers that allow everything from now on.
pub open spec fn allows_all(s: Seq<char>) -> bool {
    ||| s == "allow all"@
    ||| s == "allowall"@
    ||| s == "approve all"@
    ||| s == "yes all"@
    ||| s == "允许所有"@
    ||| s == "允许全部"@
    ||| s == "全部允许"@
    ||| s == "所有允许"@
    ||| s == "都允许"@
    ||| s == "全部同意"@
}

/// Whether a lowercase text allows everything from now on.
pub fn is_allow_all_response(s: &str) -> (r: bool)
    ensures
        r == allows_all(s@),
{
    same(s, "allow all") || same(s, "allowall") || same(s, "approve all") || same(s, "yes all")
        || same(s, "允许所有") || same(s, "允许全部") || same(s, "全部允许") || same(s, "所有允许")
        || same(s, "都允许") || same(s, "全部同意")
}

/// The answers that allow the request.
pub open spec fn allows(s: Seq<char>) -> bool {
    ||| s == "allow"@
    ||| s == "yes"@
    ||| s == "y"@
    ||| s == "ok"@
    ||| s == "允许"@
    ||| s == "同意"@
    ||| s == "可以"@
    ||| s == "好"@
    ||| s == "好的"@
    ||| s == "是"@
    ||| s == "确认"@
    ||| s == "approve"@
}

/// Whether a lowercase text allows the request.
pub fn is_allow_response(s: &str) -> (r: bool)
    ensures
        r == allows(s@),
{
    same(s, "allow") || same(s, "yes") || same(s, "y") || same(s, "ok") || same(s, "允许") || same(
        s,
        "同意",
    ) || same(s, "可以") || same(s, "好") || same(s, "好的") || same(s, "是") || same(s, "确认")
        || same(s, "approve")
}

/// The answers that deny the request.
pub open spec fn denies(s: Seq<char>) -> bool {
    ||| s == "deny"@
    ||| s == "no"@
    ||| s == "n"@
    ||| s == "reject"@
    ||| s == "拒绝"@
    ||| s == "不允许"@
    ||| s == "不行"@
    ||| s == "不"@
    ||| s == "否"@
    ||| s == "取消"@
    ||| s == "cancel"@
}

/// Whether a lowercase text denies the request.
pub fn is_deny_response(s: &str) -> (r: bool)
    ensures
        r == denies(s@),
{
    same(s, "deny") || same(s, "no") || same(s, "n") || same(s, "reject") || same(s, "拒绝") || same(
        s,
        "不允许",
    ) || same(s, "不行") || same(s, "不") || same(s, "否") || same(s, "取消") || same(s, "cancel")
}

/// No answer means two things: what allows everything, what allows the request
/// and what denies it exclude each other.
pub proof fn law_answers_are_unambiguous(s: Seq<char>)
    ensures
        !(allows_all(s) && allows(s)),
        !(allows_all(s) && denies(s)),
        !(allows(s) && denies(s)),
{
    reveal_strlit("allow all");
    reveal_strlit("allowall");
    reveal_strlit("approve all");
    reveal_strlit("yes all");
    reveal_strlit("允许所有");
    reveal_strlit("允许全部");
    reveal_strlit("全部允许");
    reveal_strlit("所有允许");
    reveal_strlit("都允许");
    reveal_strlit("全部同意");
    reveal_strlit("allow");
    reveal_strlit("yes");
    reveal_strlit("y");
    reveal_strlit("ok");
    reveal_strlit("允许");
    reveal_strlit("同意");
    reveal_strlit("可以");
    reveal_strlit("好");
    reveal_strlit("好的");
    reveal_strlit("是");
    reveal_strlit("确认");
    reveal_strlit("approve");
    reveal_strlit("deny");
    reveal_strlit("no");
    reveal_strlit("n");
    reveal_strlit("reject");
    reveal_strlit("拒绝");
    reveal_strlit("不允许");
    reveal_strlit("不行");
    reveal_strlit("不");
    reveal_strlit("否");
    reveal_strlit("取消");
    reveal_strlit("cancel");
    if allows_all(s) {
        assert(s.len() >= 3);
        assert(s.len() == 3 ==> s[0] == '都');
        assert(s.len() == 4 ==> s[0] == '允' || s[0] == '全' || s[0] == '所');
        assert(s.len() == 7 ==> s[0] == 'y');
        assert(s.len() == 5 || s.len() == 6 ==> false);
    }
    if allows(s) {
        assert(s.len() == 1 ==> s[0] == 'y' || s[0] == '好' || s[0] == '是');
        assert(s.len() == 2 ==> s[0] == 'o' || s[0] == '允' || s[0] == '同' || s[0] == '可' || s[0]
            == '好' || s[0] == '确');
        assert(s.len() == 3 ==> s[0] == 'y');
        assert(s.len() == 4 || s.len() == 6 ==> false);
        assert(s.len() == 7 ==> s[0] == 'a');
        assert(s.len() <= 7);
    }
    if denies(s) {
        assert(s.len() == 1 ==> s[0] == 'n' || s[0] == '不' || s[0] == '否');
        assert(s.len() == 2 ==> s[0] == 'n' || s[0] == '拒' || s[0] == '不' || s[0] == '取');
        assert(s.len() == 3 ==> s[0] == '不');
        assert(s.len() == 4 ==> s[0] == 'd');
        assert(s.len() <= 6);
        assert(s.len() == 5 ==> false);
    }
}

// ---------------------------------------------------------------------------
// Platforms
// ---------------------------------------------------------------------------

/// The platforms that a project can name.
#[derive(PartialEq, Eq, Structural, Clone, Copy, Debug)]
pub enum PlatformKind {
    Telegram,
    Discord,
    Feishu,
}

pub open spec fn platform_named(name: Seq<char>) -> Option<PlatformKind> {
    if name == "telegram"@ {
        Some(PlatformKind::Telegram)
    } else if name == "discord"@ {
        Some(PlatformKind::Discord)
    } else if name == "feishu"@ || name == "lark"@ {
        Some(PlatformKind::Feishu)
    } else {
        None
    }
}

/// The platform of a configured type, or what is wrong with it.
pub fn create_platform_capabilities(platform_type: &str) -> (r: Result<PlatformKind, String>)
    ensures
        match platform_named(platform_type@) {
            Some(k) => r == Ok::<PlatformKind, String>(k),
            None => r is Err && r->Err_0@ == "Unknown platform type: "@ + platform_type@,
        },
{
    if same(platform_type, "telegram") {
        Ok(PlatformKind::Telegram)
    } else if same(platform_type, "discord") {
        Ok(PlatformKind::Discord)
    } else if same(platform_type, "feishu") || same(platform_type, "lark") {
        Ok(PlatformKind::Feishu)
    } else {
        let mut e: String = "Unknown platform type: ".to_owned();
        e.append(platform_type);
        Err(e)
    }
}

// ---------------------------------------------------------------------------
// Laws
// ---------------------------------------------------------------------------

/// A list of ids with commas between them lets exactly those in that it names,
/// white space around them aside; `*` lets everyone in.
pub proof fn law_list_lets_in_whom_it_names(ids: Seq<Seq<char>>, user: Seq<char>)
    requires
        ids.len() > 0,
        forall|i: int| 0 <= i < ids.len() ==> !(#[trigger] ids[i]).contains(','),
        joined(ids, ","@) != "*"@,
    ensures
        allowed("*"@, user),
        allow_list(Some("*"@)) is None,
        allow_list(None) is None,
        allowed(joined(ids, ","@), user) <==> exists|i: int|
            0 <= i < ids.len() && trimmed(#[trigger] ids[i]) == user,
        on_list(allow_list(Some(joined(ids, ","@))), user) <==> exists|i: int|
            0 <= i < ids.len() && trimmed(#[trigger] ids[i]) == user,
{
    reveal_strlit(",");
    assert(","@ =~= seq![',']);
    lemma_joined_split(ids, ',');
    let s = joined(ids, ","@);
    let list = allow_list(Some(s))->0;
    if list.contains(user) {
        let i = choose|i: int| 0 <= i < list.len() && list[i] == user;
        assert(trimmed(ids[i]) == user);
    }
    if exists|i: int| 0 <= i < ids.len() && trimmed(#[trigger] ids[i]) == user {
        let i = choose|i: int| 0 <= i < ids.len() && trimmed(#[trigger] ids[i]) == user;
        assert(list[i] == user);
        assert(trimmed(split(s, ',')[i]) == user);
    }
    if allowed(s, user) {
        let i = choose|i: int| 0 <= i < split(s, ',').len() && trimmed(#[trigger] split(s, ',')[i])
            == user;
        assert(trimmed(ids[i]) == user);
    }
}

/// Sessions of different platforms are never shared: the names of platforms have
/// no colon in them.
pub proof fn law_platforms_have_their_own_sessions(
    a: Seq<char>,
    b: Seq<char>,
    from_a: Seq<char>,
    from_b: Seq<char>,
    group_a: bool,
    group_b: bool,
    channel_a: Option<Seq<char>>,
    channel_b: Option<Seq<char>>,
)
    requires
        a != b,
        !a.contains(':'),
        !b.contains(':'),
    ensures
        session_key(a, from_a, group_a, channel_a) != session_key(b, from_b, group_b, channel_b),
{
    reveal_strlit(":");
    let x = session_key(a, from_a, group_a, channel_a);
    let y = session_key(b, from_b, group_b, channel_b);
    if x == y {
        assert(x[a.len() as int] == ':');
        assert(y[b.len() as int] == ':');
        if a.len() < b.len() {
            assert(b[a.len() as int] == ':');
            assert(b.contains(':'));
        } else if b.len() < a.len() {
            assert(a[b.len() as int] == ':');
            assert(a.contains(':'));
        } else {
            assert(a =~= x.take(a.len() as int));
            assert(b =~= y.take(a.len() as int));
        }
    }
}

/// The key names the platform, and where the conversation is: the channel in a
/// group, the sender otherwise.
pub proof fn law_key_names_the_place(
    platform: Seq<char>,
    from: Seq<char>,
    is_group: bool,
    channel: Seq<char>,
)
    ensures
        ({
            let key = session_key(platform, from, is_group, Some(channel));
            &&& platform.is_prefix_of(key)
            &&& is_group ==> channel.is_suffix_of(key)
            &&& !is_group ==> from.is_suffix_of(key)
            &&& key.len() == platform.len() + 1 + if is_group {
                channel.len()
            } else {
                from.len()
            }
        }),
{
    reveal_strlit(":");
    let key = session_key(platform, from, is_group, Some(channel));
    assert(platform =~= key.take(platform.len() as int));
    let place = if is_group {
        channel
    } else {
        from
    };
    assert(place =~= key.skip(key.len() - place.len()));
}

/// An alias stands for its command: alone it is the command, and what is said
/// behind it stays behind the command. A text that no alias starts stays as it
/// is.
pub proof fn law_alias_stands_for_its_command(alias: AliasConfig, rest: Seq<char>)
    requires
        trimmed(alias.trigger@) == alias.trigger@,
        alias.trigger@.len() > 0,
        trimmed(rest) == rest,
        rest.len() > 0,
    ensures
        unaliased(alias.trigger@, seq![alias]) == alias.command@,
        unaliased(alias.trigger@ + " "@ + rest, seq![alias]) == alias.command@ + " "@ + rest,
{
    reveal_strlit(" ");
    let t = alias.trigger@;
    assert(t.skip(t.len() as int) =~= Seq::<char>::empty());
    assert(trimmed(Seq::<char>::empty()) =~= Seq::<char>::empty());
    let said = t + " "@ + rest;
    let (a, b) = law_trimmed_stands_in_the_text(t);
    let (c, d) = law_trimmed_stands_in_the_text(rest);
    assert(said[0] == t[0]);
    assert(said.last() == rest.last());
    assert(trimmed(said) == said);
    assert((t + " "@) =~= said.take(t.len() as int + 1));
    let left = said.skip(t.len() as int);
    assert(left =~= " "@ + rest);
    assert(left.skip(1) =~= rest);
    assert(trim_start(left) == trim_start(rest));
}

/// Of several aliases the first that fits is taken, and a text that none fits
/// stays as it is.
pub proof fn law_first_alias_counts(text: Seq<char>, aliases: Seq<AliasConfig>, i: int)
    requires
        0 <= i <= aliases.len(),
        forall|k: int|
            0 <= k < i ==> trimmed(text) != (#[trigger] aliases[k]).trigger@ && !(
            aliases[k].trigger@ + " "@).is_prefix_of(trimmed(text)),
    ensures
        i == aliases.len() ==> unaliased(text, aliases) == text,
        i < aliases.len() ==> unaliased(text, aliases) == unaliased(text, aliases.skip(i)),
    decreases aliases.len(),
{
    if i > 0 {
        let rest = aliases.skip(1);
        assert(!triggers(trimmed(text), aliases[0].trigger@));
        assert forall|k: int| 0 <= k < i - 1 implies trimmed(text) != (
        #[trigger] rest[k]).trigger@ && !(rest[k].trigger@ + " "@).is_prefix_of(trimmed(text)) by {
            assert(rest[k] == aliases[k + 1]);
        }
        law_first_alias_counts(text, rest, i - 1);
        assert(rest.skip(i - 1) =~= aliases.skip(i));
    } else {
        assert(aliases.skip(0) =~= aliases);
    }
}

/// A command is taken apart into its name and its arguments: a slash, the name
/// without white space, and the arguments behind a space.
pub proof fn law_command_is_taken_apart(name: Seq<char>, args: Seq<char>)
    requires
        forall|i: int| 0 <= i < name.len() ==> !is_space(#[trigger] name[i]),
        trimmed(args) == args,
    ensures
        command_name("/"@ + name) == name,
        command_args("/"@ + name).len() == 0,
        command_name("/"@ + name + " "@ + args) == name,
        command_args("/"@ + name + " "@ + args) == args,
{
    reveal_strlit("/");
    reveal_strlit(" ");
    let a = "/"@ + name;
    let b = "/"@ + name + " "@ + args;
    assert(a.skip(1) =~= name);
    assert(b.skip(1) =~= name + " "@ + args);
    lemma_word_len(a.skip(1), name.len() as int);
    assert(a.skip(1).take(name.len() as int) =~= name);
    let c = b.skip(1);
    assert forall|i: int| 0 <= i < name.len() implies !is_space(#[trigger] c[i]) by {
        assert(c[i] == name[i]);
    }
    assert(c[name.len() as int] == ' ');
    lemma_word_len(c, name.len() as int);
    assert(c.take(name.len() as int) =~= name);
    assert(c.skip(name.len() as int + 1) =~= args);
    assert(trimmed(Seq::<char>::empty()) =~= Seq::<char>::empty());
}

/// A custom command says what it was set up to say, and then what the user adds.
pub proof fn law_custom_command_says_its_prompt(prompt: Seq<char>, args: Seq<char>)
    ensures
        prompt.is_prefix_of(custom_prompt(prompt, args)),
        args.is_suffix_of(custom_prompt(prompt, args)),
        args.len() == 0 ==> custom_prompt(prompt, args) == prompt,
{
    let all = custom_prompt(prompt, args);
    assert(prompt =~= all.take(prompt.len() as int));
    assert(args =~= all.skip(all.len() - args.len()));
}

/// The custom command that is found has the name, and none before it has; where
/// none is found, none has it.
pub proof fn law_command_is_found_by_its_name(commands: Seq<CommandConfig>, name: Seq<char>)
    ensures
        find_command(commands, name) is Some <==> exists|i: int|
            0 <= i < commands.len() && (#[trigger] commands[i]).name@ == name,
        find_command(commands, name) is Some ==> find_command(commands, name)->0.name@ == name
            && commands.contains(find_command(commands, name)->0),
        commands.len() > 0 && commands[0].name@ == name ==> find_command(commands, name) == Some(
            commands[0],
        ),
    decreases commands.len(),
{
    if commands.len() > 0 {
        let rest = commands.skip(1);
        law_command_is_found_by_its_name(rest, name);
        if commands[0].name@ == name {
            assert(commands.contains(commands[0]));
        } else {
            if find_command(rest, name) is Some {
                let c = find_command(rest, name)->0;
                let i = choose|i: int| 0 <= i < rest.len() && rest[i] == c;
                assert(commands[i + 1] == c);
                let j = choose|j: int| 0 <= j < rest.len() && (#[trigger] rest[j]).name@ == name;
                assert(commands[j + 1].name@ == name);
            }
            if exists|i: int| 0 <= i < commands.len() && (#[trigger] commands[i]).name@ == name {
                let i = choose|i: int|
                    0 <= i < commands.len() && (#[trigger] commands[i]).name@ == name;
                assert(rest[i - 1].name@ == name);
            }
        }
    }
}

/// What stands behind `/btw` is what is said to the running turn; a text that
/// does not start so says nothing to it.
pub proof fn law_aside_is_what_stands_behind(said: Seq<char>, text: Seq<char>)
    requires
        trimmed(said) == said,
        said.len() > 0,
    ensures
        aside("/btw "@ + said) == Some(said),
        aside(text) is Some ==> "/btw"@.is_prefix_of(trimmed(text)) && occurs(
            text,
            aside(text)->0,
        ) && aside(text)->0.len() > 0,
{
    reveal_strlit("/btw ");
    reveal_strlit("/btw\n");
    reveal_strlit("/btw");
    let all = "/btw "@ + said;
    let (a, b) = law_trimmed_stands_in_the_text(said);
    assert(all[0] == '/');
    assert(all.last() == said.last());
    assert(trimmed(all) == all);
    assert("/btw "@ =~= all.take(5));
    let left = all.skip(4);
    assert(left.skip(1) =~= said);
    assert(left[0] == ' ');
    assert(trim_start(left) == trim_start(said));
    if aside(text) is Some {
        let t = trimmed(text);
        let (c, d) = law_trimmed_stands_in_the_text(text);
        let (e, f) = law_trimmed_stands_in_the_text(t.skip(4));
        let s = aside(text)->0;
        assert("/btw"@ =~= t.take(4));
        let before = c + t.take(4) + e;
        let after = f + d;
        assert(t =~= t.take(4) + t.skip(4));
        assert(text == c + t + d);
        assert(t.skip(4) == e + s + f);
        assert(c + (t.take(4) + (e + s + f)) + d =~= before + s + after);
        lemma_occurs_in(before, s, after);
    }
}

/// The agent is told of every image of a message, behind the text.
pub proof fn law_images_are_named(text: Seq<char>, images: Seq<ImageAttachment>, i: int)
    requires
        0 <= i < images.len(),
    ensures
        text.is_prefix_of(prompt_of(text, images)),
        occurs(prompt_of(text, images), images[i].filename@),
    decreases images.len(),
{
    let front = images.drop_last();
    let before = prompt_of(text, front);
    let all = prompt_of(text, images);
    let name = images.last().filename@;
    let note = "\n\nThe user sent an image: "@;
    let alone = "The user sent an image: "@;
    lemma_prompt_starts(text, images);
    if i == images.len() - 1 {
        if before.len() == 0 {
            assert(all =~= alone + name + Seq::<char>::empty());
            lemma_occurs_in(alone, name, Seq::empty());
        } else {
            assert(all =~= (before + note) + name + Seq::<char>::empty());
            lemma_occurs_in(before + note, name, Seq::empty());
        }
    } else {
        law_images_are_named(text, front, i);
        assert(front[i] == images[i]);
        let x = images[i].filename@;
        let k = choose|k: int| #[trigger] occurs_at(before, x, k);
        if before.len() > 0 {
            assert(all.subrange(k, k + x.len()) =~= before.subrange(k, k + x.len()));
            assert(occurs_at(all, x, k));
        } else {
            assert(x.len() == 0);
            assert(all.subrange(0, 0) =~= x);
            assert(occurs_at(all, x, 0));
        }
    }
}

proof fn lemma_prompt_starts(text: Seq<char>, images: Seq<ImageAttachment>)
    ensures
        text.is_prefix_of(prompt_of(text, images)),
    decreases images.len(),
{
    if images.len() > 0 {
        lemma_prompt_starts(text, images.drop_last());
    }
}

/// A word is banned in whatever text it occurs, and a text without one passes.
pub proof fn law_banned_word_is_found(before: Seq<char>, word: Seq<char>, after: Seq<char>)
    ensures
        holds_any(before + word + after, seq![word]),
        !holds_any(before, Seq::empty()),
        word.len() > before.len() ==> !holds_any(before, seq![word]),
{
    lemma_occurs_in(before, word, after);
    assert(occurs(before + word + after, seq![word][0]));
}

/// Answers go by their first character: none that starts like a refusal allows
/// anything, none that starts like a permission refuses, and what allows
/// everything says so with "all" or its like.
pub proof fn law_answers_by_how_they_start(s: Seq<char>)
    ensures
        denies(s) ==> s.len() > 0 && (s[0] == 'd' || s[0] == 'n' || s[0] == 'r' || s[0] == 'c'
            || s[0] == '拒' || s[0] == '不' || s[0] == '否' || s[0] == '取'),
        allows(s) ==> s.len() > 0 && (s[0] == 'a' || s[0] == 'y' || s[0] == 'o' || s[0] == '允'
            || s[0] == '同' || s[0] == '可' || s[0] == '好' || s[0] == '是' || s[0] == '确'),
        allows_all(s) ==> "all"@.is_suffix_of(s) || s.contains('全') || s.contains('所')
            || s.contains('都'),
        allows(s) ==> !"all"@.is_suffix_of(s),
{
    reveal_strlit("all");
    reveal_strlit("allow all");
    reveal_strlit("allowall");
    reveal_strlit("approve all");
    reveal_strlit("yes all");
    reveal_strlit("允许所有");
    reveal_strlit("允许全部");
    reveal_strlit("全部允许");
    reveal_strlit("所有允许");
    reveal_strlit("都允许");
    reveal_strlit("全部同意");
    reveal_strlit("allow");
    reveal_strlit("yes");
    reveal_strlit("y");
    reveal_strlit("ok");
    reveal_strlit("允许");
    reveal_strlit("同意");
    reveal_strlit("可以");
    reveal_strlit("好");
    reveal_strlit("好的");
    reveal_strlit("是");
    reveal_strlit("确认");
    reveal_strlit("approve");
    reveal_strlit("deny");
    reveal_strlit("no");
    reveal_strlit("n");
    reveal_strlit("reject");
    reveal_strlit("拒绝");
    reveal_strlit("不允许");
    reveal_strlit("不行");
    reveal_strlit("不");
    reveal_strlit("否");
    reveal_strlit("取消");
    reveal_strlit("cancel");
    if allows_all(s) {
        if s == "allow all"@ || s == "allowall"@ || s == "approve all"@ || s == "yes all"@ {
            assert("all"@ =~= s.skip(s.len() - 3));
        } else if s == "允许所有"@ {
            assert(s[2] == '所');
        } else if s == "允许全部"@ {
            assert(s[2] == '全');
        } else if s == "全部允许"@ || s == "全部同意"@ {
            assert(s[0] == '全');
        } else if s == "所有允许"@ {
            assert(s[0] == '所');
        } else {
            assert(s[0] == '都');
        }
    }
    if allows(s) && "all"@.is_suffix_of(s) {
        assert("all"@.last() == 'l');
        assert(s.last() == "all"@.last());
    }
}

/// A platform goes by its own name, Feishu by that of Lark too, and there is no
/// other.
pub proof fn law_platforms_go_by_their_names(name: Seq<char>)
    ensures
        platform_named(name) == Some(PlatformKind::Telegram) <==> name == "telegram"@,
        platform_named(name) == Some(PlatformKind::Discord) <==> name == "discord"@,
        platform_named(name) == Some(PlatformKind::Feishu) <==> name == "feishu"@ || name
            == "lark"@,
{
    reveal_strlit("telegram");
    reveal_strlit("discord");
    reveal_strlit("feishu");
    reveal_strlit("lark");
    assert("telegram"@.len() == 8 && "discord"@.len() == 7 && "feishu"@.len() == 6
        && "lark"@.len() == 4);
}

} // verus!
