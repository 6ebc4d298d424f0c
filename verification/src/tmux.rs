//! The tmux backend: an agent that runs in a tmux pane, often one that someone
//! sits in front of.
//!
//! Keys are sent to the pane and its screen is captured again and again. The
//! functions here tell what a captured screen shows; a [`Poll`] decides what is
//! told of one screen after another.

use crate::clock::{new_id, uuid_shaped};
use crate::commands::{law_number_reads_back, number_in, parse_number, value};
use crate::config::TmuxConfig;
use crate::json::{as_text, from_text, make_object1, member, object1, Json};
use crate::message::{events_view, options_view, AgentEvent, PermissionOption, Told};
use crate::text::{
    alphanumeric, chars_of, contains, contains_char, decimal, ends_with, find_char, first_of,
    holds_text, is_alphanumeric, is_space, join, joined, law_decimal_reads_back,
    law_trimmed_stands_in_the_text, lemma_first_of, lemma_first_of_bounds, lemma_occurs_in,
    lemma_texts_push, lemma_trim_start, lowercased, occurs, occurs_at, same, skip, starts_with,
    take, texts, to_lower, trim, trim_end, trim_left, trim_right, trim_start, trimmed,
};
use vstd::prelude::*;
use vstd::string::*;

verus! {

// ---------------------------------------------------------------------------
// Characters
// ---------------------------------------------------------------------------

pub open spec fn ascii_digit(c: char) -> bool {
    '0' <= c <= '9'
}

pub open spec fn ascii_upper(c: char) -> bool {
    'A' <= c <= 'Z'
}

pub open spec fn name_char(c: char) -> bool {
    ascii_digit(c) || ascii_upper(c) || 'a' <= c <= 'z' || c == '_'
}

/// Whether a line is drawn: it holds nothing but rules.
pub open spec fn is_rule(t: Seq<char>) -> bool {
    forall|i: int| 0 <= i < t.len() ==> (#[trigger] t[i] == '─' || t[i] == '╌')
}

fn rule(t: &str) -> (r: bool)
    ensures
        r == is_rule(t@),
{
    let v: Vec<char> = chars_of(t);
    let mut i: usize = 0;
    while i < v.len()
        invariant
            i <= v.len(),
            v@ == t@,
            forall|k: int| 0 <= k < i ==> (#[trigger] t@[k] == '─' || t@[k] == '╌'),
        decreases v.len() - i,
    {
        if v[i] != '─' && v[i] != '╌' {
            assert(t@[i as int] == v[i as int]);
            return false;
        }
        i += 1;
    }
    true
}

// ---------------------------------------------------------------------------
// Lines
// ---------------------------------------------------------------------------

/// Whether a line trails off, as a status line does.
pub open spec fn trails_off(t: Seq<char>) -> bool {
    "…"@.is_suffix_of(t) || "..."@.is_suffix_of(t)
}

/// Whether a text is made of digits, and of one at least.
pub open spec fn is_count(s: Seq<char>) -> bool {
    s.len() > 0 && forall|i: int| 0 <= i < s.len() ==> ascii_digit(#[trigger] s[i])
}

/// Whether `t` ends in "for" some seconds, with the number from `k` on.
pub open spec fn seconds_from(t: Seq<char>, k: int) -> bool {
    &&& 0 <= k < t.len()
    &&& t.last() == 's'
    &&& is_count(t.subrange(k, t.len() - 1))
    &&& " for "@.is_suffix_of(t.take(k))
}

/// Whether a line ends in "for" some seconds.
pub open spec fn for_seconds(t: Seq<char>) -> bool {
    exists|k: int| seconds_from(t, k)
}

fn ends_in_seconds(t: &str) -> (r: bool)
    ensures
        r == for_seconds(t@),
{
    let v: Vec<char> = chars_of(t);
    let n: usize = v.len();
    if n == 0 || v[n - 1] != 's' {
        return false;
    }
    let mut k: usize = n - 1;
    while k > 0 && '0' <= v[k - 1] && v[k - 1] <= '9'
        invariant
            k < n,
            n == v.len(),
            v@ == t@,
            forall|i: int| k <= i < n - 1 ==> ascii_digit(#[trigger] t@[i]),
        decreases k,
    {
        k -= 1;
    }
    proof {
        reveal_strlit(" for ");
        assert forall|j: int| seconds_from(t@, j) implies j == k by {
            let front = t@.take(j);
            assert(t@[j - 1] == front.last());
            assert(front.last() == " for "@.last());
            if j < k {
                let count = t@.subrange(j, n - 1);
                assert(count[k - 1 - j] == t@[k - 1]);
            }
            if j > k {
                assert(ascii_digit(t@[j - 1]));
            }
        }
    }
    if k == n - 1 {
        assert(t@.subrange(k as int, n - 1).len() == 0);
        return false;
    }
    let front: &str = take(t, k);
    let r: bool = ends_with(front, " for ");
    proof {
        let count = t@.subrange(k as int, n - 1);
        assert forall|i: int| 0 <= i < count.len() implies ascii_digit(#[trigger] count[i]) by {
            assert(count[i] == t@[k + i]);
        }
        assert(front@ =~= t@.take(k as int));
        if r {
            assert(seconds_from(t@, k as int));
        }
    }
    r
}

/// Whether a trimmed line ends a reply, where it is known whether it starts
/// with a letter or a number: a glyph that is no mark of text, with a tail
/// "for" some seconds, or a status that trails off.
pub open spec fn footer(t: Seq<char>, worded: bool) -> bool {
    &&& t.len() > 0
    &&& !worded && t[0] != '⏺' && t[0] != '-' && t[0] != '•'
    &&& for_seconds(t) || trails_off(t)
}

/// Whether a trimmed line ends a reply block, where it is known whether it
/// starts with a letter or a number.
pub fn is_footer(t: &str, worded: bool) -> (r: bool)
    ensures
        r == footer(t@, worded),
{
    if t.is_empty() {
        return false;
    }
    let c: char = t.get_char(0);
    let glyph: bool = !worded && c != '⏺' && c != '-' && c != '•';
    glyph && (ends_in_seconds(t) || ends_with(t, "…") || ends_with(t, "..."))
}

/// Whether a line ends a reply.
pub open spec fn done_footer(line: Seq<char>) -> bool {
    let t = trimmed(line);
    t.len() > 0 && footer(t, alphanumeric(t[0]))
}

/// Whether a line ends a reply block.
pub fn is_done_footer(line: &str) -> (r: bool)
    ensures
        r == done_footer(line@),
{
    let t: &str = trim(line);
    if t.is_empty() {
        return false;
    }
    let worded: bool = is_alphanumeric(t.get_char(0));
    is_footer(t, worded)
}

/// Whether a line starts a reply block.
pub open spec fn reply_start(line: Seq<char>) -> bool {
    "⏺"@.is_prefix_of(trim_start(line))
}

/// Whether a line starts a reply block.
pub fn is_reply_start(line: &str) -> (r: bool)
    ensures
        r == reply_start(line@),
{
    starts_with(trim_left(line), "⏺")
}

/// Whether the start of a block is a tool call: a capitalised name with a
/// bracket right behind it.
pub open spec fn tool_call(first: Seq<char>) -> bool {
    let t = trim_start(first);
    let n = first_of(t, '(');
    &&& 0 < n < t.len()
    &&& ascii_upper(t[0])
    &&& forall|i: int| 0 <= i < n ==> name_char(#[trigger] t[i])
}

/// Whether the start of a block is a tool call rather than prose.
pub fn is_tool_call_block(first_line_after_marker: &str) -> (r: bool)
    ensures
        r == tool_call(first_line_after_marker@),
{
    let t: &str = trim_left(first_line_after_marker);
    let v: Vec<char> = chars_of(t);
    let n: usize = find_char(t, '(');
    if n == 0 || n == v.len() {
        return false;
    }
    if !('A' <= v[0] && v[0] <= 'Z') {
        return false;
    }
    let mut i: usize = 0;
    while i < n
        invariant
            i <= n,
            n < v.len(),
            v@ == t@,
            n == first_of(t@, '('),
            t@ == trim_start(first_line_after_marker@),
            forall|k: int| 0 <= k < i ==> name_char(#[trigger] t@[k]),
        decreases n - i,
    {
        let c: char = v[i];
        let named: bool = ('0' <= c && c <= '9') || ('A' <= c && c <= 'Z') || ('a' <= c && c
            <= 'z') || c == '_';
        if !named {
            assert(!name_char(t@[i as int]));
            return false;
        }
        i += 1;
    }
    true
}

/// Whether a line ends the block before it. Blank lines and lines indented by
/// two spaces continue it, but for a rule, the input box and a footer.
pub open spec fn block_boundary(line: Seq<char>) -> bool {
    let t = trimmed(line);
    t.len() > 0 && (!"  "@.is_prefix_of(line) || is_rule(t) || "❯"@.is_prefix_of(t)
        || done_footer(line))
}

/// Whether a line ends the block before it.
pub fn is_block_boundary(line: &str) -> (r: bool)
    ensures
        r == block_boundary(line@),
{
    let t: &str = trim(line);
    if t.is_empty() {
        return false;
    }
    !starts_with(line, "  ") || rule(t) || starts_with(t, "❯") || is_done_footer(line)
}

// ---------------------------------------------------------------------------
// Busy screens
// ---------------------------------------------------------------------------

/// The glyphs of the spinner.
pub open spec fn spinner_glyph(c: char) -> bool {
    c == '✢' || c == '✳' || c == '✶' || c == '✻' || c == '✽' || c == '✺'
}

/// Whether a line is the live status of a turn.
pub open spec fn spinner_line(line: Seq<char>) -> bool {
    let t = trimmed(line);
    t.len() > 0 && spinner_glyph(t[0]) && trails_off(t)
}

/// How many of the last lines can hold the live status.
pub const TAIL: usize = 15;

/// Whether a screen shows a turn at work: the hint how to interrupt it, or a
/// live status near the end.
pub open spec fn busy_screen(lines: Seq<Seq<char>>) -> bool {
    ||| exists|i: int| 0 <= i < lines.len() && occurs(#[trigger] lines[i], "esc to interrupt"@)
    ||| exists|i: int|
        lines.len() - TAIL <= i < lines.len() && 0 <= i && spinner_line(#[trigger] lines[i])
}

fn is_spinner_line(line: &str) -> (r: bool)
    ensures
        r == spinner_line(line@),
{
    let t: &str = trim(line);
    if t.is_empty() {
        return false;
    }
    let c: char = t.get_char(0);
    (c == '✢' || c == '✳' || c == '✶' || c == '✻' || c == '✽' || c == '✺') && (ends_with(t, "…")
        || ends_with(t, "..."))
}

/// Whether a screen shows a turn at work. A finished turn's footer does not
/// count, nor does a status far up in the scrollback.
pub fn screen_is_busy(lines: &Vec<String>) -> (r: bool)
    ensures
        r == busy_screen(texts(lines@)),
{
    let ghost all = texts(lines@);
    let n: usize = lines.len();
    assert(all.len() == n);
    let mut i: usize = 0;
    while i < n
        invariant
            i <= n,
            n == lines.len(),
            all == texts(lines@),
            forall|k: int| 0 <= k < i ==> !occurs(#[trigger] all[k], "esc to interrupt"@),
        decreases n - i,
    {
        assert(all[i as int] == lines[i as int]@);
        if contains(lines[i].as_str(), "esc to interrupt") {
            return true;
        }
        i += 1;
    }
    let start: usize = if n > TAIL {
        n - TAIL
    } else {
        0
    };
    let mut j: usize = start;
    while j < n
        invariant
            start <= j <= n,
            n == lines.len(),
            all == texts(lines@),
            all.len() == n,
            start == if n > TAIL {
                n - TAIL
            } else {
                0
            },
            forall|k: int| 0 <= k < n ==> !occurs(#[trigger] all[k], "esc to interrupt"@),
            forall|k: int| start <= k < j ==> !spinner_line(#[trigger] all[k]),
        decreases n - j,
    {
        assert(all[j as int] == lines[j as int]@);
        if is_spinner_line(lines[j].as_str()) {
            return true;
        }
        j += 1;
    }
    false
}

/// Whether a long turn is shown as a visible message: it is not where hooks
/// report progress.
pub fn should_emit_heartbeat(hook_relay: bool) -> (r: bool)
    ensures
        r == !hook_relay,
{
    !hook_relay
}

/// The last line that looks like a status; a word where there is none.
pub open spec fn status_line(lines: Seq<Seq<char>>) -> Seq<char>
    decreases lines.len(),
{
    if lines.len() == 0 {
        "Working…"@
    } else if done_footer(trimmed(lines.last())) {
        trimmed(lines.last())
    } else {
        status_line(lines.drop_last())
    }
}

/// The last line that looks like a status.
pub fn live_status(lines: &Vec<String>) -> (r: String)
    ensures
        r@ == status_line(texts(lines@)),
{
    let ghost all = texts(lines@);
    let mut i: usize = lines.len();
    assert(all.take(i as int) =~= all);
    while i > 0
        invariant
            i <= lines.len(),
            all == texts(lines@),
            status_line(all) == status_line(all.take(i as int)),
        decreases i,
    {
        let ghost front = all.take(i as int);
        proof {
            assert(front.last() == lines[i - 1]@);
            assert(front.drop_last() =~= all.take(i - 1));
        }
        let t: &str = trim(lines[i - 1].as_str());
        if is_done_footer(t) {
            return t.to_owned();
        }
        i -= 1;
    }
    assert(all.take(0) =~= Seq::empty());
    "Working…".to_owned()
}

/// Whether a line starts with the mark of an input box.
pub open spec fn input_box(lines: Seq<Seq<char>>) -> bool {
    exists|i: int| 0 <= i < lines.len() && "❯"@.is_prefix_of(trim_start(#[trigger] lines[i]))
}

fn has_input_box(lines: &Vec<String>) -> (r: bool)
    ensures
        r == input_box(texts(lines@)),
{
    let ghost all = texts(lines@);
    let mut i: usize = 0;
    while i < lines.len()
        invariant
            i <= lines.len(),
            all == texts(lines@),
            forall|k: int| 0 <= k < i ==> !"❯"@.is_prefix_of(trim_start(#[trigger] all[k])),
        decreases lines.len() - i,
    {
        assert(all[i as int] == lines[i as int]@);
        if starts_with(trim_left(lines[i].as_str()), "❯") {
            return true;
        }
        i += 1;
    }
    false
}

/// Whether a program that was just started takes input: the banner that it
/// shows is there, and the border of its input box.
pub open spec fn ready_screen(lines: Seq<Seq<char>>, banner: Seq<char>) -> bool {
    &&& exists|i: int| 0 <= i < lines.len() && occurs(#[trigger] lines[i], banner)
    &&& exists|i: int| 0 <= i < lines.len() && box_border(#[trigger] lines[i])
}

/// Whether a line is the border of an input box.
pub open spec fn box_border(line: Seq<char>) -> bool {
    let t = trimmed(line);
    t.len() > 20 && forall|i: int| 0 <= i < t.len() ==> #[trigger] t[i] == '─'
}

fn is_box_border(line: &str) -> (r: bool)
    ensures
        r == box_border(line@),
{
    let t: &str = trim(line);
    let v: Vec<char> = chars_of(t);
    if v.len() <= 20 {
        return false;
    }
    let mut i: usize = 0;
    while i < v.len()
        invariant
            i <= v.len(),
            v@ == t@,
            t@ == trimmed(line@),
            forall|k: int| 0 <= k < i ==> #[trigger] t@[k] == '─',
        decreases v.len() - i,
    {
        if v[i] != '─' {
            assert(t@[i as int] != '─');
            return false;
        }
        i += 1;
    }
    true
}

/// Whether a program that was just started takes input.
pub fn is_ready(lines: &Vec<String>, banner: &str) -> (r: bool)
    ensures
        r == ready_screen(texts(lines@), banner@),
{
    let ghost all = texts(lines@);
    let mut told: bool = false;
    let mut border: bool = false;
    let mut i: usize = 0;
    while i < lines.len()
        invariant
            i <= lines.len(),
            all == texts(lines@),
            told == exists|k: int| 0 <= k < i && occurs(#[trigger] all[k], banner@),
            border == exists|k: int| 0 <= k < i && box_border(#[trigger] all[k]),
        decreases lines.len() - i,
    {
        assert(all[i as int] == lines[i as int]@);
        if contains(lines[i].as_str(), banner) {
            told = true;
        }
        if is_box_border(lines[i].as_str()) {
            border = true;
        }
        i += 1;
    }
    told && border
}

/// How long a program that was just started is waited for, in milliseconds.
pub const READY_WAIT_MS: u64 = 20_000;

/// What is to be done about a program that was just started.
#[derive(PartialEq, Eq, Structural, Clone, Copy, Debug)]
pub enum Launch {
    /// It takes input.
    Ready,
    /// Look again.
    Again,
    /// It took too long; it is sent its input all the same.
    GivenUp,
}

/// What is to be done about a program that was just started, from its screen
/// where that could be captured.
pub open spec fn launched(
    screen: Option<Seq<Seq<char>>>,
    banner: Seq<char>,
    waited_ms: u64,
) -> Launch {
    if screen is Some && ready_screen(screen->0, banner) {
        Launch::Ready
    } else if waited_ms >= READY_WAIT_MS {
        Launch::GivenUp
    } else {
        Launch::Again
    }
}

/// What is to be done about a program that was started `waited_ms` milliseconds
/// ago.
pub fn on_launch(screen: &Option<Vec<String>>, banner: &str, waited_ms: u64) -> (r: Launch)
    ensures
        r == launched(screen_opt(*screen), banner@, waited_ms),
{
    if let Some(lines) = screen {
        if is_ready(lines, banner) {
            return Launch::Ready;
        }
    }
    if waited_ms >= READY_WAIT_MS {
        Launch::GivenUp
    } else {
        Launch::Again
    }
}

impl Launch {
    /// How long to wait then, in milliseconds: a little for the input box to
    /// settle, or until the next look.
    pub fn pause_ms(&self) -> (r: u64)
        ensures
            r == match *self {
                Launch::Ready => 300u64,
                Launch::Again => 250,
                Launch::GivenUp => 0,
            },
    {
        match self {
            Launch::Ready => 300,
            Launch::Again => 250,
            Launch::GivenUp => 0,
        }
    }
}

// ---------------------------------------------------------------------------
// Replies
// ---------------------------------------------------------------------------

/// The number of lines at the start that continue a block.
pub open spec fn block_len(lines: Seq<Seq<char>>) -> int
    decreases lines.len(),
{
    if lines.len() == 0 || reply_start(lines[0]) || block_boundary(lines[0]) {
        0
    } else {
        1 + block_len(lines.skip(1))
    }
}

/// The first line of a block, without its marker.
pub open spec fn unmarked(line: Seq<char>) -> Seq<char> {
    let t = trim_start(line);
    if "⏺"@.is_prefix_of(t) {
        trim_start(t.skip(1))
    } else {
        trim_start(t)
    }
}

/// A continuation line, without its indentation.
pub open spec fn unindented(line: Seq<char>) -> Seq<char> {
    if "  "@.is_prefix_of(line) {
        line.skip(2)
    } else {
        line
    }
}

/// Whether a line holds nothing but white space.
pub open spec fn blank(line: Seq<char>) -> bool {
    forall|i: int| 0 <= i < line.len() ==> is_space(#[trigger] line[i])
}

/// The text of a block with its first line and the `n` lines that continue it.
pub open spec fn block_text(lines: Seq<Seq<char>>, n: int) -> Seq<char> {
    trimmed(
        joined(
            seq![unmarked(lines[0])] + lines.subrange(1, n + 1).map_values(
                |l: Seq<char>| unindented(l),
            ),
            "\n"@,
        ),
    )
}

/// The replies on a screen, in order: each block from its marker to its end,
/// without tool calls and without empty ones.
pub open spec fn reply_blocks(lines: Seq<Seq<char>>) -> Seq<Seq<char>>
    decreases lines.len(),
    via reply_blocks_decrease
{
    if lines.len() == 0 {
        Seq::empty()
    } else if !reply_start(lines[0]) {
        reply_blocks(lines.skip(1))
    } else {
        let n = block_len(lines.skip(1));
        let rest = reply_blocks(lines.skip(n + 1));
        let text = block_text(lines, n);
        if tool_call(unmarked(lines[0])) || text.len() == 0 {
            rest
        } else {
            seq![text] + rest
        }
    }
}

#[via_fn]
proof fn reply_blocks_decrease(lines: Seq<Seq<char>>) {
    if lines.len() > 0 {
        lemma_block_len(lines.skip(1));
    }
}

pub proof fn lemma_block_len(lines: Seq<Seq<char>>)
    ensures
        0 <= block_len(lines) <= lines.len(),
    decreases lines.len(),
{
    if lines.len() > 0 && !reply_start(lines[0]) && !block_boundary(lines[0]) {
        lemma_block_len(lines.skip(1));
    }
}

/// `n` lines continue a block where none of them ends it and the next one does.
proof fn lemma_block_len_is(lines: Seq<Seq<char>>, n: int)
    requires
        0 <= n <= lines.len(),
        forall|k: int|
            0 <= k < n ==> !reply_start(#[trigger] lines[k]) && !block_boundary(lines[k]),
        n < lines.len() ==> reply_start(lines[n]) || block_boundary(lines[n]),
    ensures
        block_len(lines) == n,
    decreases n,
{
    if n > 0 {
        assert(!reply_start(lines[0]));
        let t = lines.skip(1);
        assert forall|k: int| 0 <= k < n - 1 implies !reply_start(#[trigger] t[k])
            && !block_boundary(t[k]) by {
            assert(t[k] == lines[k + 1]);
        }
        lemma_block_len_is(t, n - 1);
    }
}

fn without_marker(line: &str) -> (r: String)
    ensures
        r@ == unmarked(line@),
{
    let t: &str = trim_left(line);
    if starts_with(t, "⏺") {
        proof {
            reveal_strlit("⏺");
        }
        trim_left(skip(t, 1)).to_owned()
    } else {
        trim_left(t).to_owned()
    }
}

fn without_indent(line: &str) -> (r: String)
    ensures
        r@ == unindented(line@),
{
    if starts_with(line, "  ") {
        proof {
            reveal_strlit("  ");
        }
        skip(line, 2).to_owned()
    } else {
        line.to_owned()
    }
}

/// The block that starts at line `i`: its text, and the line behind it.
fn read_block(lines: &Vec<String>, i: usize) -> (r: (String, usize))
    requires
        i < lines.len(),
    ensures
        ({
            let rest = texts(lines@).skip(i as int);
            let n = block_len(rest.skip(1));
            &&& r.0@ == block_text(rest, n)
            &&& r.1 == i + 1 + n
            &&& i < r.1 <= lines.len()
        }),
{
    let ghost all = texts(lines@);
    let ghost rest = all.skip(i as int);
    let first: String = without_marker(lines[i].as_str());
    let mut block: Vec<String> = Vec::new();
    let ghost head = seq![unmarked(rest[0])];
    assert(rest[0] == lines[i as int]@);
    block.push(first);
    let mut j: usize = i + 1;
    proof {
        let none = rest.subrange(1, 1).map_values(|l: Seq<char>| unindented(l));
        assert(texts(block@) =~= head + none);
    }
    while j < lines.len() && !is_reply_start(lines[j].as_str()) && !is_block_boundary(
        lines[j].as_str(),
    )
        invariant
            i < j <= lines.len(),
            all == texts(lines@),
            rest == all.skip(i as int),
            head == seq![unmarked(rest[0])],
            texts(block@) == head + rest.subrange(1, j - i).map_values(
                |l: Seq<char>| unindented(l),
            ),
            forall|k: int|
                0 <= k < j - i - 1 ==> !reply_start(#[trigger] rest.skip(1)[k])
                    && !block_boundary(rest.skip(1)[k]),
        decreases lines.len() - j,
    {
        let line: String = without_indent(lines[j].as_str());
        proof {
            assert(rest.skip(1)[j - i - 1] == lines[j as int]@);
            assert(rest[j - i] == lines[j as int]@);
            lemma_texts_push(block@, line);
            let before = rest.subrange(1, j - i).map_values(|l: Seq<char>| unindented(l));
            let after = rest.subrange(1, j - i + 1).map_values(|l: Seq<char>| unindented(l));
            assert(before.push(line@) =~= after);
            assert((head + before).push(line@) =~= head + after);
        }
        block.push(line);
        j += 1;
    }
    proof {
        if j < lines.len() {
            assert(rest.skip(1)[j - i - 1] == lines[j as int]@);
        }
        lemma_block_len_is(rest.skip(1), j - i - 1);
    }
    let text: String = join(&block, "\n");
    (trim(text.as_str()).to_owned(), j)
}

/// The replies on a screen. Everything else on it (spinners, banners, rules,
/// prompts) is left out, and a reply is always whole.
pub fn extract_reply_blocks(lines: &Vec<String>) -> (r: Vec<String>)
    ensures
        texts(r@) == reply_blocks(texts(lines@)),
{
    let ghost all = texts(lines@);
    let mut blocks: Vec<String> = Vec::new();
    let mut i: usize = 0;
    proof {
        assert(all.skip(0) =~= all);
        assert(texts(blocks@) + reply_blocks(all) =~= reply_blocks(all));
    }
    while i < lines.len()
        invariant
            i <= lines.len(),
            all == texts(lines@),
            reply_blocks(all) == texts(blocks@) + reply_blocks(all.skip(i as int)),
        decreases lines.len() - i,
    {
        let ghost rest = all.skip(i as int);
        assert(rest[0] == lines[i as int]@);
        if !is_reply_start(lines[i].as_str()) {
            assert(rest.skip(1) =~= all.skip(i + 1));
            i += 1;
        } else {
            let first: String = without_marker(lines[i].as_str());
            let is_tool: bool = is_tool_call_block(first.as_str());
            let (text, next): (String, usize) = read_block(lines, i);
            proof {
                lemma_block_len(rest.skip(1));
                assert(rest.skip(next - i) =~= all.skip(next as int));
            }
            if !is_tool && !text.as_str().is_empty() {
                proof {
                    lemma_texts_push(blocks@, text);
                    let more = reply_blocks(all.skip(next as int));
                    assert(texts(blocks@) + (seq![text@] + more) =~= texts(blocks@).push(text@)
                        + more);
                }
                blocks.push(text);
            }
            i = next;
        }
    }
    proof {
        assert(all.skip(i as int) =~= Seq::empty());
        assert(texts(blocks@) + Seq::<Seq<char>>::empty() =~= texts(blocks@));
    }
    blocks
}

// ---------------------------------------------------------------------------
// Permission prompts
// ---------------------------------------------------------------------------

/// Whether a lowercase text is a permission prompt: a numbered "yes" with a
/// numbered "no" or a question.
pub open spec fn prompt_text(t: Seq<char>) -> bool {
    &&& occurs(t, "1. yes"@) || occurs(t, "1.yes"@)
    &&& occurs(t, "2. no"@) || occurs(t, "3. no"@) || occurs(t, "2.no"@) || occurs(t, "3.no"@)
        || asking(t)
}

/// Whether a lowercase text asks for permission.
pub open spec fn asking(t: Seq<char>) -> bool {
    occurs(t, "do you want to"@)
}

/// Whether a text is a permission prompt, in whatever case.
pub open spec fn permission_prompt(content: Seq<char>) -> bool {
    prompt_text(lowercased(content))
}

/// Whether a lowercase text is a permission prompt.
pub fn is_prompt_text(t: &str) -> (r: bool)
    ensures
        r == prompt_text(t@),
{
    (contains(t, "1. yes") || contains(t, "1.yes")) && (contains(t, "2. no") || contains(t, "3. no")
        || contains(t, "2.no") || contains(t, "3.no") || contains(t, "do you want to"))
}

/// Whether a text is a permission prompt. Prose that merely speaks of
/// permissions is none.
pub fn contains_permission_prompt(content: &str) -> (r: bool)
    ensures
        r == permission_prompt(content@),
{
    let lower: String = to_lower(content);
    is_prompt_text(lower.as_str())
}

/// Lines in lowercase.
pub open spec fn lowered(lines: Seq<Seq<char>>) -> Seq<Seq<char>> {
    lines.map_values(|l: Seq<char>| lowercased(l))
}

/// The index of the first lowercase line that asks; the number of lines where
/// none does.
pub open spec fn question_line(lower: Seq<Seq<char>>) -> int
    decreases lower.len(),
{
    if lower.len() == 0 || asking(lower[0]) {
        0
    } else {
        1 + question_line(lower.skip(1))
    }
}

/// Whether a line is the footer of a permission menu.
pub open spec fn permission_footer(t: Seq<char>) -> bool {
    occurs(t, "Esc to cancel"@) || occurs(t, "Tab to amend"@)
}

/// The lines of a permission menu up to its footer, trimmed, without the blank
/// ones.
pub open spec fn permission_lines(lines: Seq<Seq<char>>) -> Seq<Seq<char>>
    decreases lines.len(),
{
    if lines.len() == 0 || permission_footer(trimmed(lines[0])) {
        Seq::empty()
    } else if trimmed(lines[0]).len() == 0 {
        permission_lines(lines.skip(1))
    } else {
        seq![trimmed(lines[0])] + permission_lines(lines.skip(1))
    }
}

/// The menu on a screen that asks in line `q`: from there to the footer; the
/// whole screen where no line asks.
pub open spec fn menu_at(lines: Seq<Seq<char>>, q: int) -> Seq<char> {
    if q >= lines.len() {
        joined(lines, "\n"@)
    } else {
        joined(permission_lines(lines.skip(q)), "\n"@)
    }
}

/// The permission menu on a screen.
pub open spec fn permission_menu(lines: Seq<Seq<char>>) -> Seq<char> {
    menu_at(lines, question_line(lowered(lines)))
}

proof fn lemma_question_line(lower: Seq<Seq<char>>, i: int)
    requires
        0 <= i <= lower.len(),
        forall|k: int| 0 <= k < i ==> !asking(#[trigger] lower[k]),
        i < lower.len() ==> asking(lower[i]),
    ensures
        question_line(lower) == i,
    decreases i,
{
    if i > 0 {
        assert(!asking(lower[0]));
        let t = lower.skip(1);
        assert forall|k: int| 0 <= k < i - 1 implies !asking(#[trigger] t[k]) by {
            assert(t[k] == lower[k + 1]);
        }
        lemma_question_line(t, i - 1);
    }
}

/// The index of the first lowercase line that asks.
pub fn find_question(lower: &Vec<String>) -> (r: usize)
    ensures
        r == question_line(texts(lower@)),
        r <= lower.len(),
{
    let ghost all = texts(lower@);
    let mut q: usize = 0;
    while q < lower.len() && !contains(lower[q].as_str(), "do you want to")
        invariant
            q <= lower.len(),
            all == texts(lower@),
            forall|k: int| 0 <= k < q ==> !asking(#[trigger] all[k]),
        decreases lower.len() - q,
    {
        assert(all[q as int] == lower[q as int]@);
        q += 1;
    }
    proof {
        if q < lower.len() {
            assert(all[q as int] == lower[q as int]@);
        }
        lemma_question_line(all, q as int);
    }
    q
}

/// The permission menu on a screen.
pub fn extract_permission_menu(lines: &Vec<String>) -> (r: String)
    ensures
        r@ == permission_menu(texts(lines@)),
{
    let ghost all = texts(lines@);
    let mut lower: Vec<String> = Vec::new();
    let mut i: usize = 0;
    assert(texts(lower@) =~= lowered(all).take(0));
    while i < lines.len()
        invariant
            i <= lines.len(),
            all == texts(lines@),
            texts(lower@) == lowered(all).take(i as int),
        decreases lines.len() - i,
    {
        let line: String = to_lower(lines[i].as_str());
        proof {
            assert(all[i as int] == lines[i as int]@);
            lemma_texts_push(lower@, line);
            assert(lowered(all).take(i as int).push(line@) =~= lowered(all).take(i + 1));
        }
        lower.push(line);
        i += 1;
    }
    assert(lowered(all).take(i as int) =~= lowered(all));
    let q: usize = find_question(&lower);
    menu_from(lines, q)
}

/// The menu on a screen that asks in line `q`.
pub fn menu_from(lines: &Vec<String>, q: usize) -> (r: String)
    ensures
        r@ == menu_at(texts(lines@), q as int),
{
    let ghost all = texts(lines@);
    if q >= lines.len() {
        return join(lines, "\n");
    }
    let ghost menu = permission_lines(all.skip(q as int));
    let mut out: Vec<String> = Vec::new();
    let mut i: usize = q;
    assert(texts(out@) + menu =~= menu);
    while i < lines.len()
        invariant
            q <= i <= lines.len(),
            all == texts(lines@),
            menu == texts(out@) + permission_lines(all.skip(i as int)),
        ensures
            menu == texts(out@),
        decreases lines.len() - i,
    {
        let ghost rest = all.skip(i as int);
        assert(rest[0] == lines[i as int]@);
        let t: &str = trim(lines[i].as_str());
        if contains(t, "Esc to cancel") || contains(t, "Tab to amend") {
            assert(texts(out@) + Seq::<Seq<char>>::empty() =~= texts(out@));
            break;
        }
        assert(rest.skip(1) =~= all.skip(i + 1));
        if !t.is_empty() {
            let line: String = t.to_owned();
            proof {
                lemma_texts_push(out@, line);
                let more = permission_lines(all.skip(i + 1));
                assert(texts(out@) + (seq![line@] + more) =~= texts(out@).push(line@) + more);
            }
            out.push(line);
        }
        i += 1;
        proof {
            if i == lines.len() {
                assert(all.skip(i as int) =~= Seq::empty());
                assert(texts(out@) + Seq::<Seq<char>>::empty() =~= texts(out@));
            }
        }
    }
    join(&out, "\n")
}

// ---------------------------------------------------------------------------
// Selection menus
// ---------------------------------------------------------------------------

/// A text without the cursor at its start.
pub open spec fn strip_cursor(s: Seq<char>) -> Seq<char>
    decreases s.len(),
{
    if s.len() > 0 && s[0] == '❯' {
        strip_cursor(s.skip(1))
    } else {
        s
    }
}

fn cursor_stripped<'a>(s: &'a str) -> (r: &'a str)
    ensures
        r@ == strip_cursor(s@),
{
    let v: Vec<char> = chars_of(s);
    let mut i: usize = 0;
    assert(s@.skip(0) =~= s@);
    while i < v.len() && v[i] == '❯'
        invariant
            i <= v.len(),
            v@ == s@,
            strip_cursor(s@) == strip_cursor(s@.skip(i as int)),
        decreases v.len() - i,
    {
        assert(s@.skip(i as int)[0] == v[i as int]);
        assert(s@.skip(i as int).skip(1) =~= s@.skip(i + 1));
        i += 1;
    }
    proof {
        if i < v.len() {
            assert(s@.skip(i as int)[0] == v[i as int]);
        }
    }
    skip(s, i)
}

/// Whether a line is the footer of a selection menu.
pub open spec fn selection_footer(t: Seq<char>) -> bool {
    occurs(t, "Enter to select"@) || (occurs(t, "to navigate"@) && occurs(t, "to cancel"@))
}

fn is_selection_footer(t: &str) -> (r: bool)
    ensures
        r == selection_footer(t@),
{
    contains(t, "Enter to select") || (contains(t, "to navigate") && contains(t, "to cancel"))
}

/// Whether a line is a numbered option, with or without the cursor on it.
pub open spec fn numbered(line: Seq<char>) -> bool {
    let t = trim_start(strip_cursor(trim_start(line)));
    t.len() > 1 && ascii_digit(t[0]) && t[1] == '.'
}

fn is_numbered(line: &str) -> (r: bool)
    ensures
        r == numbered(line@),
{
    let t: &str = trim_left(cursor_stripped(trim_left(line)));
    if t.unicode_len() < 2 {
        return false;
    }
    let c: char = t.get_char(0);
    '0' <= c && c <= '9' && t.get_char(1) == '.'
}

/// Whether a screen shows a menu to select from: its footer and a numbered
/// option.
pub open spec fn selection_screen(lines: Seq<Seq<char>>) -> bool {
    &&& exists|i: int| 0 <= i < lines.len() && selection_footer(trimmed(#[trigger] lines[i]))
    &&& exists|i: int| 0 <= i < lines.len() && numbered(#[trigger] lines[i])
}

/// Whether a screen shows a menu to select from.
pub fn contains_selection_menu(lines: &Vec<String>) -> (r: bool)
    ensures
        r == selection_screen(texts(lines@)),
{
    let ghost all = texts(lines@);
    let mut footer: bool = false;
    let mut option: bool = false;
    let mut i: usize = 0;
    while i < lines.len()
        invariant
            i <= lines.len(),
            all == texts(lines@),
            footer == exists|k: int| 0 <= k < i && selection_footer(trimmed(#[trigger] all[k])),
            option == exists|k: int| 0 <= k < i && numbered(#[trigger] all[k]),
        decreases lines.len() - i,
    {
        assert(all[i as int] == lines[i as int]@);
        if is_selection_footer(trim(lines[i].as_str())) {
            footer = true;
        }
        if is_numbered(lines[i].as_str()) {
            option = true;
        }
        i += 1;
    }
    footer && option
}

/// The keycap of a digit.
pub open spec fn keycap_of(n: nat) -> Option<Seq<char>> {
    if n == 1 {
        Some("1\u{fe0f}\u{20e3}"@)
    } else if n == 2 {
        Some("2\u{fe0f}\u{20e3}"@)
    } else if n == 3 {
        Some("3\u{fe0f}\u{20e3}"@)
    } else if n == 4 {
        Some("4\u{fe0f}\u{20e3}"@)
    } else if n == 5 {
        Some("5\u{fe0f}\u{20e3}"@)
    } else if n == 6 {
        Some("6\u{fe0f}\u{20e3}"@)
    } else if n == 7 {
        Some("7\u{fe0f}\u{20e3}"@)
    } else if n == 8 {
        Some("8\u{fe0f}\u{20e3}"@)
    } else if n == 9 {
        Some("9\u{fe0f}\u{20e3}"@)
    } else {
        None
    }
}

/// The keycap emoji of a digit from 1 to 9.
pub fn keycap(n: u32) -> (r: Option<&'static str>)
    ensures
        match r {
            Some(s) => keycap_of(n as nat) == Some(s@),
            None => keycap_of(n as nat) is None,
        },
{
    if n == 1 {
        Some("1\u{fe0f}\u{20e3}")
    } else if n == 2 {
        Some("2\u{fe0f}\u{20e3}")
    } else if n == 3 {
        Some("3\u{fe0f}\u{20e3}")
    } else if n == 4 {
        Some("4\u{fe0f}\u{20e3}")
    } else if n == 5 {
        Some("5\u{fe0f}\u{20e3}")
    } else if n == 6 {
        Some("6\u{fe0f}\u{20e3}")
    } else if n == 7 {
        Some("7\u{fe0f}\u{20e3}")
    } else if n == 8 {
        Some("8\u{fe0f}\u{20e3}")
    } else if n == 9 {
        Some("9\u{fe0f}\u{20e3}")
    } else {
        None
    }
}

/// The number and the text of an option; nothing where a line is none.
pub open spec fn option_in(t: Seq<char>) -> Option<(nat, Seq<char>)> {
    let dot = first_of(t, '.');
    if dot >= t.len() {
        None
    } else {
        match number_in(t.take(dot)) {
            Some(n) => if n <= u32::MAX {
                Some((n, trim_start(t.skip(dot + 1))))
            } else {
                None
            },
            None => None,
        }
    }
}

/// The number and the text of an option line.
pub fn parse_option_line<'a>(t: &'a str) -> (r: Option<(u32, &'a str)>)
    ensures
        match r {
            Some(o) => option_in(t@) == Some((o.0 as nat, o.1@)),
            None => option_in(t@) is None,
        },
{
    let n: usize = t.unicode_len();
    let dot: usize = find_char(t, '.');
    if dot == n {
        return None;
    }
    let num: &str = take(t, dot);
    assert(num@ =~= t@.take(dot as int));
    match parse_number(num) {
        Some(k) => if k <= u32::MAX as usize {
            Some((k as u32, trim_left(skip(t, dot + 1))))
        } else {
            None
        },
        None => None,
    }
}

/// A line without white space and cursor at its start.
pub open spec fn uncursored(line: Seq<char>) -> Seq<char> {
    trim_start(strip_cursor(trimmed(line)))
}

/// Whether a line of a menu is decoration: a rule or the row of tabs.
pub open spec fn is_chrome(t: Seq<char>) -> bool {
    is_rule(t) || t.contains('☐') || t.contains('☑') || occurs(t, "Submit"@)
}

/// The lines of a menu up to its footer, without blank lines, decoration and
/// cursor.
pub open spec fn menu_lines(lines: Seq<Seq<char>>) -> Seq<Seq<char>>
    decreases lines.len(),
{
    if lines.len() == 0 {
        Seq::empty()
    } else {
        let t = trimmed(lines[0]);
        if t.len() > 0 && selection_footer(t) {
            Seq::empty()
        } else if t.len() == 0 || is_chrome(t) {
            menu_lines(lines.skip(1))
        } else {
            seq![uncursored(lines[0])] + menu_lines(lines.skip(1))
        }
    }
}

fn clean_menu(lines: &Vec<String>) -> (r: Vec<String>)
    ensures
        texts(r@) == menu_lines(texts(lines@)),
{
    let ghost all = texts(lines@);
    let ghost menu = menu_lines(all);
    let mut out: Vec<String> = Vec::new();
    let mut i: usize = 0;
    proof {
        assert(all.skip(0) =~= all);
        assert(texts(out@) + menu =~= menu);
    }
    while i < lines.len()
        invariant
            i <= lines.len(),
            all == texts(lines@),
            menu == menu_lines(all),
            menu == texts(out@) + menu_lines(all.skip(i as int)),
        decreases lines.len() - i,
    {
        let ghost rest = all.skip(i as int);
        assert(rest[0] == lines[i as int]@);
        let t: &str = trim(lines[i].as_str());
        if !t.is_empty() {
            if is_selection_footer(t) {
                assert(texts(out@) + Seq::<Seq<char>>::empty() =~= texts(out@));
                return out;
            }
            if !(rule(t) || contains_char(t, '☐') || contains_char(t, '☑') || contains(
                t,
                "Submit",
            )) {
                let line: String = trim_left(cursor_stripped(t)).to_owned();
                proof {
                    lemma_texts_push(out@, line);
                    let more = menu_lines(all.skip(i + 1));
                    assert(rest.skip(1) =~= all.skip(i + 1));
                    assert(texts(out@) + (seq![line@] + more) =~= texts(out@).push(line@) + more);
                }
                out.push(line);
            }
        }
        assert(rest.skip(1) =~= all.skip(i + 1));
        i += 1;
    }
    proof {
        assert(all.skip(i as int) =~= Seq::empty());
        assert(texts(out@) + Seq::<Seq<char>>::empty() =~= texts(out@));
    }
    out
}

/// Whether an option in lowercase is of no use in a chat.
pub open spec fn meta_text(t: Seq<char>) -> bool {
    "type something"@.is_prefix_of(t) || "chat about this"@.is_prefix_of(t)
}

/// Whether an option in lowercase is of no use in a chat.
pub fn is_meta_text(t: &str) -> (r: bool)
    ensures
        r == meta_text(t@),
{
    starts_with(t, "type something") || starts_with(t, "chat about this")
}

/// Whether an option is of no use in a chat, in whatever case.
pub open spec fn meta_option(rest: Seq<char>) -> bool {
    meta_text(lowercased(rest))
}

/// The lines of the message for a menu, after those in `out`: the question
/// with its mark, each option by its keycap, and what is said of it.
pub open spec fn laid_out(out: Seq<Seq<char>>, seen_option: bool, menu: Seq<Seq<char>>) -> Seq<
    Seq<char>,
>
    decreases menu.len(),
{
    if menu.len() == 0 {
        out
    } else {
        match option_in(menu[0]) {
            Some(o) => if meta_option(o.1) {
                laid_out(out, seen_option, menu.skip(1))
            } else {
                laid_out(
                    out.push(
                        (match keycap_of(o.0) {
                            Some(k) => k,
                            None => "•"@,
                        }) + " **"@ + o.1 + "**"@,
                    ),
                    true,
                    menu.skip(1),
                )
            },
            None => if seen_option {
                laid_out(out.push("   · "@ + menu[0]), seen_option, menu.skip(1))
            } else if out.len() == 0 {
                laid_out(out.push("\u{2753} **"@ + menu[0] + "**"@), seen_option, menu.skip(1))
            } else {
                laid_out(out.push(menu[0]), seen_option, menu.skip(1))
            },
        }
    }
}

fn lay_out(menu: &Vec<String>) -> (r: Vec<String>)
    ensures
        texts(r@) == laid_out(Seq::empty(), false, texts(menu@)),
{
    let ghost all = texts(menu@);
    let mut out: Vec<String> = Vec::new();
    let mut seen_option: bool = false;
    let mut i: usize = 0;
    proof {
        assert(all.skip(0) =~= all);
        assert(texts(out@) =~= Seq::empty());
    }
    while i < menu.len()
        invariant
            i <= menu.len(),
            all == texts(menu@),
            laid_out(Seq::empty(), false, all) == laid_out(
                texts(out@),
                seen_option,
                all.skip(i as int),
            ),
        decreases menu.len() - i,
    {
        let ghost rest = all.skip(i as int);
        proof {
            assert(rest[0] == menu[i as int]@);
            assert(rest.skip(1) =~= all.skip(i + 1));
            assert(texts(out@).len() == out.len());
        }
        let t: &str = menu[i].as_str();
        match parse_option_line(t) {
            Some((n, text)) => {
                let low: String = to_lower(text);
                if !is_meta_text(low.as_str()) {
                    seen_option = true;
                    let mut line: String = match keycap(n) {
                        Some(k) => k.to_owned(),
                        None => "•".to_owned(),
                    };
                    line.append(" **");
                    line.append(text);
                    line.append("**");
                    proof {
                        lemma_texts_push(out@, line);
                    }
                    out.push(line);
                }
            },
            None => {
                if seen_option {
                    let mut line: String = "   · ".to_owned();
                    line.append(t);
                    proof {
                        lemma_texts_push(out@, line);
                    }
                    out.push(line);
                } else if out.len() == 0 {
                    let mut line: String = "\u{2753} **".to_owned();
                    line.append(t);
                    line.append("**");
                    proof {
                        lemma_texts_push(out@, line);
                    }
                    out.push(line);
                } else {
                    let line: String = t.to_owned();
                    proof {
                        lemma_texts_push(out@, line);
                    }
                    out.push(line);
                }
            },
        }
        i += 1;
    }
    assert(all.skip(i as int) =~= Seq::empty());
    out
}

/// The message for the menu on a screen; empty where there is nothing to
/// select.
pub open spec fn selection_menu(lines: Seq<Seq<char>>) -> Seq<char> {
    let out = laid_out(Seq::empty(), false, menu_lines(lines));
    if out.len() == 0 {
        Seq::empty()
    } else {
        trimmed(joined(out.push("\n\u{1f4ac} 直接回复序号选择"@), "\n"@))
    }
}

/// The message for the menu on a screen, the same wherever the cursor is.
pub fn extract_selection_menu(lines: &Vec<String>) -> (r: String)
    ensures
        r@ == selection_menu(texts(lines@)),
{
    let cleaned: Vec<String> = clean_menu(lines);
    let mut out: Vec<String> = lay_out(&cleaned);
    assert(texts(out@).len() == out.len());
    if out.len() == 0 {
        return String::new();
    }
    let hint: String = "\n\u{1f4ac} 直接回复序号选择".to_owned();
    proof {
        lemma_texts_push(out@, hint);
    }
    out.push(hint);
    let text: String = join(&out, "\n");
    trim(text.as_str()).to_owned()
}

// ---------------------------------------------------------------------------
// One screen after another
// ---------------------------------------------------------------------------

/// Busy screens between two signs of life.
pub const HEARTBEAT_TICKS: u32 = 80;

/// Screens without a change after which a turn counts as settled.
pub const STABLE_TICKS: u32 = 6;

/// Further ones after which a turn is ended although no hook reported its end.
pub const HOOK_SAFETY_NET_TICKS: u32 = 20;

/// What is kept from one screen to the next.
pub struct Poll {
    session_name: String,
    auto_restart: bool,
    hook_relay: bool,
    /// A turn ran since its end was last told.
    had_content: bool,
    /// What was told already.
    seen: Vec<String>,
    restart_used: bool,
    busy_ticks: u32,
    /// A screen was busy since a result was last told.
    saw_busy: bool,
    last_heartbeat: String,
    prev_screen: Option<Vec<String>>,
    stable_ticks: u32,
}

/// What a [`Poll`] holds.
#[verifier::ext_equal]
pub struct PollModel {
    pub session_name: Seq<char>,
    pub auto_restart: bool,
    pub hook_relay: bool,
    pub had_content: bool,
    pub seen: Seq<Seq<char>>,
    pub restart_used: bool,
    pub busy_ticks: u32,
    pub saw_busy: bool,
    pub last_heartbeat: Seq<char>,
    pub prev_screen: Option<Seq<Seq<char>>>,
    pub stable_ticks: u32,
}

/// The contents of a screen that may be missing.
pub open spec fn screen_opt(s: Option<Vec<String>>) -> Option<Seq<Seq<char>>> {
    match s {
        Some(lines) => Some(texts(lines@)),
        None => None,
    }
}

impl View for Poll {
    type V = PollModel;

    closed spec fn view(&self) -> PollModel {
        PollModel {
            session_name: self.session_name@,
            auto_restart: self.auto_restart,
            hook_relay: self.hook_relay,
            had_content: self.had_content,
            seen: texts(self.seen@),
            restart_used: self.restart_used,
            busy_ticks: self.busy_ticks,
            saw_busy: self.saw_busy,
            last_heartbeat: self.last_heartbeat@,
            prev_screen: screen_opt(self.prev_screen),
            stable_ticks: self.stable_ticks,
        }
    }
}

/// A screen as far as it counts for whether it changed: white space at the
/// ends of its lines does not.
pub open spec fn settled_lines(lines: Seq<Seq<char>>) -> Seq<Seq<char>> {
    lines.map_values(|l: Seq<char>| trim_end(l))
}

fn settle_lines(lines: &Vec<String>) -> (r: Vec<String>)
    ensures
        texts(r@) == settled_lines(texts(lines@)),
{
    let ghost want = settled_lines(texts(lines@));
    let mut r: Vec<String> = Vec::new();
    let mut i: usize = 0;
    assert(texts(r@) =~= want.take(0));
    while i < lines.len()
        invariant
            i <= lines.len(),
            want == settled_lines(texts(lines@)),
            texts(r@) == want.take(i as int),
        decreases lines.len() - i,
    {
        let line: String = trim_right(lines[i].as_str()).to_owned();
        proof {
            assert(texts(lines@)[i as int] == lines[i as int]@);
            lemma_texts_push(r@, line);
            assert(want.take(i as int).push(line@) =~= want.take(i + 1));
        }
        r.push(line);
        i += 1;
    }
    assert(want.take(i as int) =~= want);
    r
}

fn same_lines(a: &Vec<String>, b: &Vec<String>) -> (r: bool)
    ensures
        r == (texts(a@) == texts(b@)),
{
    assert(texts(a@).len() == a.len());
    assert(texts(b@).len() == b.len());
    if a.len() != b.len() {
        return false;
    }
    let mut i: usize = 0;
    while i < a.len()
        invariant
            i <= a.len(),
            a.len() == b.len(),
            forall|k: int| 0 <= k < i ==> #[trigger] texts(a@)[k] == texts(b@)[k],
        decreases a.len() - i,
    {
        assert(texts(a@)[i as int] == a[i as int]@);
        assert(texts(b@)[i as int] == b[i as int]@);
        if !same(a[i].as_str(), b[i].as_str()) {
            return false;
        }
        i += 1;
    }
    assert(texts(a@) =~= texts(b@));
    true
}

/// Adds the texts of `items` that are not there yet, one after the other.
pub open spec fn remembered(seen: Seq<Seq<char>>, items: Seq<Seq<char>>) -> Seq<Seq<char>>
    decreases items.len(),
{
    if items.len() == 0 {
        seen
    } else if seen.contains(items[0]) {
        remembered(seen, items.skip(1))
    } else {
        remembered(seen.push(items[0]), items.skip(1))
    }
}

/// The texts of `items` that are new, each once, as events.
pub open spec fn new_texts(seen: Seq<Seq<char>>, items: Seq<Seq<char>>) -> Seq<Told>
    decreases items.len(),
{
    if items.len() == 0 {
        Seq::empty()
    } else if seen.contains(items[0]) {
        new_texts(seen, items.skip(1))
    } else {
        seq![Told::Text { content: items[0] }] + new_texts(seen.push(items[0]), items.skip(1))
    }
}

/// The end of a turn; its text was told before.
pub open spec fn turn_end() -> Told {
    Told::Result {
        content: Seq::empty(),
        session_id: Seq::empty(),
        input_tokens: 0,
        output_tokens: 0,
    }
}

/// The request that a permission menu stands for.
pub open spec fn menu_request(id: Seq<char>, menu: Seq<char>) -> Told {
    Told::PermissionRequest {
        request_id: id,
        tool: "tmux_permission"@,
        input: object1("prompt"@, Json::Text(menu)),
        options: Seq::empty(),
    }
}

/// A permission menu is told of once.
pub open spec fn on_permission_menu(m: PollModel, menu: Seq<char>, id: Seq<char>) -> (
    PollModel,
    Seq<Told>,
) {
    if m.seen.contains(menu) {
        (m, Seq::empty())
    } else {
        (
            PollModel { seen: m.seen.push(menu), had_content: true, ..m },
            Seq::empty().push(menu_request(id, menu)),
        )
    }
}

/// A menu to select from is told of once, and the turn ends with it.
pub open spec fn on_selection_menu(m: PollModel, menu: Seq<char>) -> (PollModel, Seq<Told>) {
    if menu.len() == 0 || m.seen.contains(menu) {
        (m, Seq::empty())
    } else {
        (
            PollModel { seen: m.seen.push(menu), saw_busy: false, had_content: false, ..m },
            Seq::empty().push(Told::Text { content: menu }).push(turn_end()),
        )
    }
}

/// A busy screen: nothing is told of it but a sign of life from time to time.
pub open spec fn on_busy(m: PollModel, lines: Seq<Seq<char>>) -> (PollModel, Seq<Told>) {
    let m1 = PollModel { had_content: true, saw_busy: true, ..m };
    if m.busy_ticks + 1 < HEARTBEAT_TICKS {
        (PollModel { busy_ticks: (m.busy_ticks + 1) as u32, ..m1 }, Seq::empty())
    } else {
        let m2 = PollModel { busy_ticks: 0, ..m1 };
        let status = status_line(lines);
        if m.hook_relay {
            (m2, Seq::empty().push(Told::Keepalive))
        } else if status == m.last_heartbeat {
            (m2, Seq::empty())
        } else {
            (
                PollModel { last_heartbeat: status, ..m2 },
                Seq::empty().push(Told::Thinking { content: status }),
            )
        }
    }
}

/// How long the screen has not changed.
pub open spec fn steadied(m: PollModel, lines: Seq<Seq<char>>) -> PollModel {
    let now = settled_lines(lines);
    if m.prev_screen == Some(now) {
        PollModel {
            busy_ticks: 0,
            stable_ticks: if m.stable_ticks < u32::MAX {
                (m.stable_ticks + 1) as u32
            } else {
                m.stable_ticks
            },
            ..m
        }
    } else {
        PollModel { busy_ticks: 0, stable_ticks: 0, prev_screen: Some(now), ..m }
    }
}

/// A screen that is not busy: once it is settled, the turn that ran is over.
/// Where hooks report replies only its end is told, and that late.
pub open spec fn on_quiet(m: PollModel, lines: Seq<Seq<char>>) -> (PollModel, Seq<Told>) {
    let m1 = steadied(m, lines);
    let waiting = input_box(lines) && m.saw_busy;
    if m.hook_relay {
        if waiting && m1.stable_ticks >= STABLE_TICKS + HOOK_SAFETY_NET_TICKS {
            (
                PollModel { saw_busy: false, had_content: false, ..m1 },
                Seq::empty().push(turn_end()),
            )
        } else {
            (m1, Seq::empty())
        }
    } else if waiting && m1.stable_ticks >= STABLE_TICKS {
        let blocks = reply_blocks(lines);
        let told = new_texts(m.seen, blocks);
        let m2 = PollModel { saw_busy: false, seen: remembered(m.seen, blocks), ..m1 };
        if told.len() > 0 || m.had_content {
            (PollModel { had_content: false, ..m2 }, told.push(turn_end()))
        } else {
            (m2, told)
        }
    } else {
        (m1, Seq::empty())
    }
}

/// What is told of a screen, and what is kept. A permission menu comes first,
/// then a menu to select from.
pub open spec fn on_screen(m: PollModel, lines: Seq<Seq<char>>, id: Seq<char>) -> (
    PollModel,
    Seq<Told>,
) {
    if permission_prompt(joined(lines, "\n"@)) {
        on_permission_menu(m, permission_menu(lines), id)
    } else if selection_screen(lines) {
        on_selection_menu(m, selection_menu(lines))
    } else if busy_screen(lines) {
        on_busy(m, lines)
    } else {
        on_quiet(m, lines)
    }
}

/// Whether the counters are within their bounds.
pub open spec fn ticks_bounded(m: PollModel) -> bool {
    m.busy_ticks < HEARTBEAT_TICKS
}

fn nothing_told() -> (r: Vec<AgentEvent>)
    ensures
        events_view(r@) == Seq::<Told>::empty(),
{
    let r: Vec<AgentEvent> = Vec::new();
    assert(events_view(r@) =~= Seq::<Told>::empty());
    r
}

fn tell(out: Vec<AgentEvent>, e: AgentEvent) -> (r: Vec<AgentEvent>)
    ensures
        events_view(r@) == events_view(out@).push(e@),
{
    let mut r: Vec<AgentEvent> = out;
    assert(events_view(r@.push(e)) =~= events_view(r@).push(e@));
    r.push(e);
    r
}

fn end_of_turn() -> (r: AgentEvent)
    ensures
        r@ == turn_end(),
{
    AgentEvent::Result {
        content: String::new(),
        session_id: String::new(),
        input_tokens: 0,
        output_tokens: 0,
    }
}

/// What is to be done about a session that is gone.
pub enum Missing {
    /// Recreate it.
    Restart,
    /// Give up, with an error.
    GiveUp(AgentEvent),
}

/// A new id for a permission request.
pub fn permission_id() -> (r: String)
    ensures
        exists|id: Seq<char>| uuid_shaped(id) && r@ == #[trigger] ("tmux-perm-"@ + id),
{
    let id: String = new_id();
    let mut r: String = "tmux-perm-".to_owned();
    r.append(id.as_str());
    assert(r@ == "tmux-perm-"@ + id@);
    r
}

/// The state once a session was recreated: on its new screen nothing counts as
/// told.
pub open spec fn restarted(m: PollModel) -> PollModel {
    PollModel { seen: Seq::empty(), had_content: false, ..m }
}

/// What is said where a session could not be recreated.
pub open spec fn restart_failure(session: Seq<char>, e: Seq<char>) -> Seq<char> {
    "tmux: auto_restart of '"@ + session + "' failed: "@ + e
}

/// The state once a session is gone, and whether it is restarted: once, where
/// that is wanted.
pub open spec fn missed(m: PollModel) -> (PollModel, bool) {
    if m.auto_restart && !m.restart_used {
        (PollModel { restart_used: true, ..m }, true)
    } else {
        (m, false)
    }
}

/// A poll of a session that shows `screen`: what stands on it is not told again.
pub open spec fn fresh_poll(
    session_name: Seq<char>,
    auto_restart: bool,
    hook_relay: bool,
    screen: Option<Seq<Seq<char>>>,
) -> PollModel {
    PollModel {
        session_name,
        auto_restart,
        hook_relay,
        had_content: false,
        seen: match screen {
            Some(lines) => remembered(Seq::empty(), reply_blocks(lines)),
            None => Seq::empty(),
        },
        restart_used: false,
        busy_ticks: 0,
        saw_busy: false,
        last_heartbeat: Seq::empty(),
        prev_screen: match screen {
            Some(lines) => Some(settled_lines(lines)),
            None => None,
        },
        stable_ticks: 0,
    }
}

impl Poll {
    /// A poll of a session whose screen is `initial`: what stands on it is not
    /// told again.
    pub fn new(
        session_name: String,
        auto_restart: bool,
        hook_relay: bool,
        initial: Option<Vec<String>>,
    ) -> (r: Poll)
        ensures
            ticks_bounded(r@),
            r@ == fresh_poll(session_name@, auto_restart, hook_relay, screen_opt(initial)),
    {
        let none: Vec<String> = Vec::new();
        assert(texts(none@) =~= Seq::empty());
        let (seen, prev_screen): (Vec<String>, Option<Vec<String>>) = match initial {
            Some(lines) => {
                let blocks: Vec<String> = extract_reply_blocks(&lines);
                let (seen, _): (Vec<String>, Vec<AgentEvent>) = tell_new(
                    none,
                    &blocks,
                );
                (seen, Some(settle_lines(&lines)))
            },
            None => (none, None),
        };
        Poll {
            session_name,
            auto_restart,
            hook_relay,
            had_content: false,
            seen,
            restart_used: false,
            busy_ticks: 0,
            saw_busy: false,
            last_heartbeat: String::new(),
            prev_screen,
            stable_ticks: 0,
        }
    }

    /// The session is gone: it is recreated once, where that is wanted.
    pub fn on_missing(self) -> (r: (Poll, Missing))
        ensures
            r.0@ == missed(self@).0,
            missed(self@).1 ==> r.1 is Restart,
            !missed(self@).1 ==> (r.1 matches Missing::GiveUp(e) && e@ == (Told::Error {
                message: "tmux: session '"@ + self@.session_name + "' no longer exists"@,
            })),
    {
        if self.auto_restart && !self.restart_used {
            let mut t: Poll = self;
            t.restart_used = true;
            (t, Missing::Restart)
        } else {
            let mut message: String = "tmux: session '".to_owned();
            message.append(self.session_name.as_str());
            message.append("' no longer exists");
            (self, Missing::GiveUp(AgentEvent::Error { message }))
        }
    }

    /// The session was recreated, or could not be. On its new screen nothing
    /// counts as told.
    pub fn on_restarted(self, result: Result<(), String>) -> (r: (Poll, Option<AgentEvent>))
        ensures
            match result {
                Ok(_) => r.1 is None && r.0@ == restarted(self@),
                Err(e) => r.0@ == self@ && r.1 is Some && r.1->0@ == (Told::Error {
                    message: restart_failure(self@.session_name, e@),
                }),
            },
    {
        match result {
            Ok(_) => {
                let mut t: Poll = self;
                t.seen = Vec::new();
                t.had_content = false;
                assert(t@.seen =~= Seq::empty());
                (t, None)
            },
            Err(e) => {
                let mut message: String = "tmux: auto_restart of '".to_owned();
                message.append(self.session_name.as_str());
                message.append("' failed: ");
                message.append(e.as_str());
                (self, Some(AgentEvent::Error { message }))
            },
        }
    }

    fn permission_menu_shown(self, menu: String, id: &str) -> (r: (Poll, Vec<AgentEvent>))
        ensures
            r.0@ == on_permission_menu(self@, menu@, id@).0,
            events_view(r.1@) == on_permission_menu(self@, menu@, id@).1,
    {
        if holds_text(&self.seen, menu.as_str()) {
            return (self, nothing_told());
        }
        let mut t: Poll = self;
        let input: serde_json::Value = make_object1("prompt", from_text(menu.as_str()));
        proof {
            lemma_texts_push(t.seen@, menu);
        }
        t.seen.push(menu);
        t.had_content = true;
        let options: Vec<PermissionOption> = Vec::new();
        assert(options_view(options@) =~= Seq::empty());
        let e: AgentEvent = AgentEvent::PermissionRequest {
            request_id: id.to_owned(),
            tool: "tmux_permission".to_owned(),
            input,
            options,
        };
        (t, tell(nothing_told(), e))
    }

    fn selection_menu_shown(self, menu: String) -> (r: (Poll, Vec<AgentEvent>))
        ensures
            r.0@ == on_selection_menu(self@, menu@).0,
            events_view(r.1@) == on_selection_menu(self@, menu@).1,
    {
        if menu.as_str().is_empty() || holds_text(&self.seen, menu.as_str()) {
            return (self, nothing_told());
        }
        let mut t: Poll = self;
        let content: String = menu.clone();
        proof {
            lemma_texts_push(t.seen@, menu);
        }
        t.seen.push(menu);
        t.saw_busy = false;
        t.had_content = false;
        let out: Vec<AgentEvent> = tell(nothing_told(), AgentEvent::Text { content });
        (t, tell(out, end_of_turn()))
    }

    fn busy(self, lines: &Vec<String>) -> (r: (Poll, Vec<AgentEvent>))
        requires
            ticks_bounded(self@),
        ensures
            r.0@ == on_busy(self@, texts(lines@)).0,
            events_view(r.1@) == on_busy(self@, texts(lines@)).1,
    {
        let mut t: Poll = self;
        t.had_content = true;
        t.saw_busy = true;
        t.busy_ticks = t.busy_ticks + 1;
        if t.busy_ticks < HEARTBEAT_TICKS {
            return (t, nothing_told());
        }
        t.busy_ticks = 0;
        if !should_emit_heartbeat(t.hook_relay) {
            return (t, tell(nothing_told(), AgentEvent::Keepalive));
        }
        let status: String = live_status(lines);
        if same(status.as_str(), t.last_heartbeat.as_str()) {
            return (t, nothing_told());
        }
        t.last_heartbeat = status.clone();
        (t, tell(nothing_told(), AgentEvent::Thinking { content: status }))
    }

    fn steady(self, lines: &Vec<String>) -> (r: Poll)
        ensures
            r@ == steadied(self@, texts(lines@)),
    {
        let now: Vec<String> = settle_lines(lines);
        let unchanged: bool = match &self.prev_screen {
            Some(before) => same_lines(before, &now),
            None => false,
        };
        let mut t: Poll = self;
        t.busy_ticks = 0;
        if unchanged {
            if t.stable_ticks < u32::MAX {
                t.stable_ticks = t.stable_ticks + 1;
            }
        } else {
            t.stable_ticks = 0;
            t.prev_screen = Some(now);
        }
        t
    }

    fn quiet(self, lines: &Vec<String>) -> (r: (Poll, Vec<AgentEvent>))
        ensures
            r.0@ == on_quiet(self@, texts(lines@)).0,
            events_view(r.1@) == on_quiet(self@, texts(lines@)).1,
    {
        let waiting: bool = self.saw_busy && has_input_box(lines);
        let mut t: Poll = self.steady(lines);
        if t.hook_relay {
            if waiting && t.stable_ticks >= STABLE_TICKS + HOOK_SAFETY_NET_TICKS {
                t.saw_busy = false;
                t.had_content = false;
                return (t, tell(nothing_told(), end_of_turn()));
            }
            return (t, nothing_told());
        }
        if !(waiting && t.stable_ticks >= STABLE_TICKS) {
            return (t, nothing_told());
        }
        t.saw_busy = false;
        let blocks: Vec<String> = extract_reply_blocks(lines);
        let before: Vec<String> = t.seen;
        let (seen, out): (Vec<String>, Vec<AgentEvent>) = tell_new(before, &blocks);
        t.seen = seen;
        assert(events_view(out@).len() == out.len());
        if out.len() > 0 || t.had_content {
            t.had_content = false;
            (t, tell(out, end_of_turn()))
        } else {
            (t, out)
        }
    }

    /// Takes a captured screen; gives the poll afterwards and what is told of
    /// it. `id` is the id for a permission request.
    pub fn on_screen(self, lines: &Vec<String>, id: &str) -> (r: (Poll, Vec<AgentEvent>))
        requires
            ticks_bounded(self@),
        ensures
            r.0@ == on_screen(self@, texts(lines@), id@).0,
            events_view(r.1@) == on_screen(self@, texts(lines@), id@).1,
            ticks_bounded(r.0@),
    {
        let screen: String = join(lines, "\n");
        if contains_permission_prompt(screen.as_str()) {
            let menu: String = extract_permission_menu(lines);
            self.permission_menu_shown(menu, id)
        } else if contains_selection_menu(lines) {
            let menu: String = extract_selection_menu(lines);
            self.selection_menu_shown(menu)
        } else if screen_is_busy(lines) {
            self.busy(lines)
        } else {
            self.quiet(lines)
        }
    }
}

/// Remembers the blocks that are new, and tells them.
fn tell_new(seen: Vec<String>, blocks: &Vec<String>) -> (r: (Vec<String>, Vec<AgentEvent>))
    ensures
        texts(r.0@) == remembered(texts(seen@), texts(blocks@)),
        events_view(r.1@) == new_texts(texts(seen@), texts(blocks@)),
{
    let ghost all = texts(blocks@);
    let ghost before = texts(seen@);
    let mut kept: Vec<String> = seen;
    let mut out: Vec<AgentEvent> = nothing_told();
    let mut i: usize = 0;
    proof {
        assert(all.skip(0) =~= all);
        assert(Seq::<Told>::empty() + new_texts(before, all) =~= new_texts(before, all));
    }
    while i < blocks.len()
        invariant
            i <= blocks.len(),
            all == texts(blocks@),
            remembered(before, all) == remembered(texts(kept@), all.skip(i as int)),
            new_texts(before, all) == events_view(out@) + new_texts(
                texts(kept@),
                all.skip(i as int),
            ),
        decreases blocks.len() - i,
    {
        let ghost rest = all.skip(i as int);
        proof {
            assert(rest[0] == blocks[i as int]@);
            assert(rest.skip(1) =~= all.skip(i + 1));
        }
        if !holds_text(&kept, blocks[i].as_str()) {
            let e: AgentEvent = AgentEvent::Text { content: blocks[i].clone() };
            let item: String = blocks[i].clone();
            proof {
                lemma_texts_push(kept@, item);
                let more = new_texts(texts(kept@).push(item@), all.skip(i + 1));
                assert(events_view(out@) + (seq![e@] + more) =~= events_view(out@).push(e@) + more);
            }
            kept.push(item);
            out = tell(out, e);
        }
        i += 1;
    }
    proof {
        assert(all.skip(i as int) =~= Seq::empty());
        assert(events_view(out@) + Seq::<Told>::empty() =~= events_view(out@));
    }
    (kept, out)
}

// ---------------------------------------------------------------------------
// Calls of tmux
// ---------------------------------------------------------------------------

/// A text as it is typed into the pane: tmux gets it as one argument, without
/// a shell, so it stays as it is.
pub fn escape_for_tmux(text: &str) -> (r: String)
    ensures
        r@ == text@,
{
    text.to_owned()
}

fn words(list: Vec<String>, s: &str) -> (r: Vec<String>)
    ensures
        texts(r@) == texts(list@).push(s@),
{
    let mut r: Vec<String> = list;
    let t: String = s.to_owned();
    proof {
        lemma_texts_push(r@, t);
    }
    r.push(t);
    r
}

fn no_words() -> (r: Vec<String>)
    ensures
        texts(r@) == Seq::<Seq<char>>::empty(),
{
    let r: Vec<String> = Vec::new();
    assert(texts(r@) =~= Seq::<Seq<char>>::empty());
    r
}

/// The arguments that ask whether a session exists.
pub open spec fn asking_args(session: Seq<char>) -> Seq<Seq<char>> {
    Seq::empty().push("has-session"@).push("-t"@).push(session)
}

/// The arguments that create a session of a fixed size in a directory.
pub open spec fn creating_args(session: Seq<char>, work_dir: Seq<char>) -> Seq<Seq<char>> {
    Seq::empty().push("new-session"@).push("-d"@).push("-s"@).push(session).push("-x"@).push(
        "120"@,
    ).push("-y"@).push("40"@).push("-c"@).push(work_dir)
}

/// The arguments that press a key in a session.
pub open spec fn pressing_args(session: Seq<char>, key: Seq<char>) -> Seq<Seq<char>> {
    Seq::empty().push("send-keys"@).push("-t"@).push(session).push(key)
}

/// The arguments that capture the last hundred lines of a session's pane.
pub open spec fn capturing_args(session: Seq<char>) -> Seq<Seq<char>> {
    Seq::empty().push("capture-pane"@).push("-t"@).push(session).push("-p"@).push("-S"@).push(
        "-100"@,
    )
}

/// The arguments that ask whether a session exists.
pub fn has_session_args(session: &str) -> (r: Vec<String>)
    ensures
        texts(r@) == asking_args(session@),
{
    words(words(words(no_words(), "has-session"), "-t"), session)
}

/// The arguments that create a session in a directory. Its size is fixed, so
/// that lines always wrap alike.
pub fn new_session_args(session: &str, work_dir: &str) -> (r: Vec<String>)
    ensures
        texts(r@) == creating_args(session@, work_dir@),
{
    let a: Vec<String> = words(words(words(no_words(), "new-session"), "-d"), "-s");
    let b: Vec<String> = words(words(words(a, session), "-x"), "120");
    words(words(words(words(b, "-y"), "40"), "-c"), work_dir)
}

/// The arguments that type a text and press Enter. The text is one argument of
/// its own, behind the end of the options.
pub open spec fn typed_args(session: Seq<char>, text: Seq<char>) -> Seq<Seq<char>> {
    Seq::empty().push("send-keys"@).push("-t"@).push(session).push("--"@).push(text).push("Enter"@)
}

/// The arguments that type a text and press Enter.
pub fn send_keys_args(session: &str, text: &str) -> (r: Vec<String>)
    ensures
        texts(r@) == typed_args(session@, text@),
{
    let typed: String = escape_for_tmux(text);
    let a: Vec<String> = words(words(words(no_words(), "send-keys"), "-t"), session);
    words(words(words(a, "--"), typed.as_str()), "Enter")
}

/// The arguments that press a key and then Enter.
pub fn send_raw_keys_args(session: &str, keys: &str) -> (r: Vec<String>)
    ensures
        texts(r@) == pressing_args(session@, keys@).push("Enter"@),
{
    let a: Vec<String> = words(words(words(no_words(), "send-keys"), "-t"), session);
    words(words(a, keys), "Enter")
}

/// The arguments that press one key.
pub fn send_key_args(session: &str, key: &str) -> (r: Vec<String>)
    ensures
        texts(r@) == pressing_args(session@, key@),
{
    words(words(words(words(no_words(), "send-keys"), "-t"), session), key)
}

/// The arguments that capture the last hundred lines of the pane.
pub fn capture_args(session: &str) -> (r: Vec<String>)
    ensures
        texts(r@) == capturing_args(session@),
{
    let a: Vec<String> = words(words(words(no_words(), "capture-pane"), "-t"), session);
    words(words(words(a, "-p"), "-S"), "-100")
}

/// The key that answers a permission menu: its first option grants, its third
/// one refuses.
pub open spec fn key_for(allow: bool) -> Seq<char> {
    if allow {
        "1"@
    } else {
        "3"@
    }
}

/// The key that answers a permission menu: the first option allows, the third
/// one denies.
pub fn permission_key(allow: bool) -> (r: &'static str)
    ensures
        r@ == key_for(allow),
{
    if allow {
        "1"
    } else {
        "3"
    }
}

/// What is said of a call that did not succeed.
pub open spec fn call_failure(what: Seq<char>, stderr: Seq<char>) -> Seq<char> {
    what + " failed: "@ + trimmed(stderr)
}

/// What is said of a session that could not be created, or not again.
pub open spec fn creation_failure(session: Seq<char>, again: bool, stderr: Seq<char>) -> Seq<char> {
    (if again {
        "tmux: failed to recreate session '"@
    } else {
        "tmux: failed to create session '"@
    }) + session + "': "@ + trimmed(stderr)
}

/// The error of a call that did not succeed, of what it wrote about it.
pub fn call_error(what: &str, stderr: &str) -> (r: String)
    ensures
        r@ == call_failure(what@, stderr@),
{
    let mut r: String = what.to_owned();
    r.append(" failed: ");
    r.append(trim(stderr));
    r
}

/// The error of a session that could not be created or recreated.
pub fn creation_error(session: &str, again: bool, stderr: &str) -> (r: String)
    ensures
        r@ == creation_failure(session@, again, stderr@),
{
    let mut r: String = if again {
        "tmux: failed to recreate session '".to_owned()
    } else {
        "tmux: failed to create session '".to_owned()
    };
    r.append(session);
    r.append("': ");
    r.append(trim(stderr));
    r
}

/// The error of a prompt for a session that is not alive.
pub fn dead_session_error(session: &str) -> (r: String)
    ensures
        r@ == "tmux: session '"@ + session@ + "' is not alive"@,
{
    let mut r: String = "tmux: session '".to_owned();
    r.append(session);
    r.append("' is not alive");
    r
}

// ---------------------------------------------------------------------------
// Sessions
// ---------------------------------------------------------------------------

/// A step on the way to end or detach a session.
#[derive(PartialEq, Eq, Structural, Clone, Copy, Debug)]
pub enum CloseStep {
    /// Press Escape: the turn ends, the program goes on.
    Escape,
    /// Type `/exit`.
    Exit,
    /// Press Ctrl-C, a little later.
    ControlC,
}

/// What interrupts the turn of a session that is alive.
pub open spec fn interrupting(alive: bool) -> Option<CloseStep> {
    if alive {
        Some(CloseStep::Escape)
    } else {
        None
    }
}

/// What `/stop` does to a session: its turn is interrupted, never the session.
pub fn interrupt_step(alive: bool) -> (r: Option<CloseStep>)
    ensures
        r == interrupting(alive),
{
    if alive {
        Some(CloseStep::Escape)
    } else {
        None
    }
}

/// What the end of a session takes. One that was merely attached belongs to
/// someone else: its turn is interrupted, and it goes on.
pub open spec fn closing(owned: bool, alive: bool) -> Seq<CloseStep> {
    if owned {
        Seq::empty().push(CloseStep::Exit).push(CloseStep::ControlC)
    } else if alive {
        Seq::empty().push(CloseStep::Escape)
    } else {
        Seq::empty()
    }
}

/// What the end of a session takes.
pub fn close_steps(owned: bool, alive: bool) -> (r: Vec<CloseStep>)
    ensures
        r@ == closing(owned, alive),
{
    let mut r: Vec<CloseStep> = Vec::new();
    if owned {
        r.push(CloseStep::Exit);
        r.push(CloseStep::ControlC);
    } else if alive {
        r.push(CloseStep::Escape);
    }
    r
}

/// The tmux session that a project works in.
pub struct TmuxAgent {
    work_dir: String,
    tmux_config: TmuxConfig,
    project_name: String,
}

/// What a [`TmuxAgent`] holds.
pub struct TmuxAgentModel {
    pub work_dir: Seq<char>,
    pub config: TmuxConfig,
    pub project_name: Seq<char>,
}

impl View for TmuxAgent {
    type V = TmuxAgentModel;

    closed spec fn view(&self) -> TmuxAgentModel {
        TmuxAgentModel {
            work_dir: self.work_dir@,
            config: self.tmux_config,
            project_name: self.project_name@,
        }
    }
}

/// How a session is come by.
#[derive(PartialEq, Eq, Structural, Clone, Copy, Debug)]
pub enum Start {
    /// It is there.
    Attach,
    /// It is created.
    Create,
}

/// How a session is come by, for whether it exists and whether it may be
/// created.
pub open spec fn planned(found: bool, auto_start: bool) -> Option<Start> {
    if found {
        Some(Start::Attach)
    } else if auto_start {
        Some(Start::Create)
    } else {
        None
    }
}

/// Whether a session may be ended along with the binding to it: one that was
/// created for the binding, and no other.
pub open spec fn owned(start: Start) -> bool {
    start == Start::Create
}

impl Start {
    /// Whether the session may be ended along with the binding to it.
    pub fn owns_session(&self) -> (r: bool)
        ensures
            r == owned(*self),
    {
        match self {
            Start::Attach => false,
            Start::Create => true,
        }
    }
}

impl TmuxAgent {
    pub fn new(work_dir: String, tmux_config: TmuxConfig, project_name: String) -> (r: Self)
        ensures
            r@ == (TmuxAgentModel {
                work_dir: work_dir@,
                config: tmux_config,
                project_name: project_name@,
            }),
    {
        Self { work_dir, tmux_config, project_name }
    }

    /// The name of the session.
    pub fn session_name(&self) -> (r: &str)
        ensures
            r@ == self@.config.session@,
    {
        self.tmux_config.session.as_str()
    }

    /// The directory that a created session starts in.
    pub fn work_dir(&self) -> (r: &str)
        ensures
            r@ == self@.work_dir,
    {
        self.work_dir.as_str()
    }

    /// How the session is come by, for whether it exists; an error where it
    /// does not and is not to be created.
    pub fn plan_start(&self, found: bool) -> (r: Result<Start, String>)
        ensures
            match planned(found, self@.config.auto_start) {
                Some(start) => r == Ok::<Start, String>(start),
                None => r is Err,
            },
            r is Err ==> r->Err_0@ == "tmux: session '"@ + self@.config.session@
                + "' does not exist and auto_start is disabled"@,
    {
        if found {
            Ok(Start::Attach)
        } else if self.tmux_config.auto_start {
            Ok(Start::Create)
        } else {
            let mut e: String = "tmux: session '".to_owned();
            e.append(self.tmux_config.session.as_str());
            e.append("' does not exist and auto_start is disabled");
            Err(e)
        }
    }

    /// A poll of the session, from what is on its screen now.
    pub fn poll(&self, initial: Option<Vec<String>>) -> (r: Poll)
        ensures
            ticks_bounded(r@),
            r@ == fresh_poll(
                self@.config.session@,
                self@.config.auto_restart,
                self@.config.hook_relay,
                screen_opt(initial),
            ),
    {
        Poll::new(
            self.tmux_config.session.clone(),
            self.tmux_config.auto_restart,
            self.tmux_config.hook_relay,
            initial,
        )
    }
}

// ---------------------------------------------------------------------------
// Laws
// ---------------------------------------------------------------------------

/// A session that was merely attached is never ended, however the project is
/// set up: neither `/exit` nor Ctrl-C is sent to it.
pub proof fn law_attached_session_survives(alive: bool)
    ensures
        !closing(owned(Start::Attach), alive).contains(CloseStep::Exit),
        !closing(owned(Start::Attach), alive).contains(CloseStep::ControlC),
{
}

proof fn lemma_blank(b: Seq<char>)
    requires
        blank(b),
    ensures
        trim_start(b).len() == 0,
        trimmed(b).len() == 0,
        !reply_start(b),
        !block_boundary(b),
        blank(unindented(b)),
{
    lemma_trim_start(b, b.len() as int);
    reveal_strlit("⏺");
    reveal_strlit("  ");
    let u = unindented(b);
    assert forall|i: int| 0 <= i < u.len() implies is_space(#[trigger] u[i]) by {
        if "  "@.is_prefix_of(b) {
            assert(u[i] == b[i + 2]);
        }
    }
}

proof fn lemma_trim_end_blank(x: Seq<char>, w: Seq<char>)
    requires
        blank(w),
    ensures
        trim_end(x + w) == trim_end(x),
    decreases w.len(),
{
    if w.len() == 0 {
        assert(x + w =~= x);
    } else {
        let s = x + w;
        assert(s.last() == w[w.len() - 1]);
        assert(s.drop_last() =~= x + w.drop_last());
        lemma_trim_end_blank(x, w.drop_last());
    }
}

proof fn lemma_trimmed_blank(x: Seq<char>, w: Seq<char>)
    requires
        blank(w),
    ensures
        trimmed(x + w) == trimmed(x),
    decreases x.len(),
{
    if x.len() == 0 {
        assert(x + w =~= w);
        lemma_trim_start(w, w.len() as int);
        assert(w.skip(w.len() as int) =~= x);
    } else if is_space(x[0]) {
        assert((x + w).skip(1) =~= x.skip(1) + w);
        lemma_trimmed_blank(x.skip(1), w);
    } else {
        lemma_trim_end_blank(x, w);
    }
}

/// A block whose last line is blank has the text of the block without it.
proof fn lemma_block_text_blank(lines: Seq<Seq<char>>, b: Seq<char>)
    requires
        lines.len() > 0,
        blank(b),
    ensures
        block_text(lines.push(b), lines.len() as int) == block_text(lines, lines.len() - 1),
{
    let n = lines.len() as int;
    let shown = |l: Seq<char>| unindented(l);
    let parts = seq![unmarked(lines[0])] + lines.subrange(1, n).map_values(shown);
    let more = seq![unmarked(lines.push(b)[0])] + lines.push(b).subrange(1, n + 1).map_values(
        shown,
    );
    let u = unindented(b);
    lemma_blank(b);
    assert(more =~= parts.push(u));
    assert(parts.push(u).drop_last() =~= parts);
    reveal_strlit("\n");
    let w = "\n"@ + u;
    assert(joined(more, "\n"@) =~= joined(parts, "\n"@) + w);
    assert forall|i: int| 0 <= i < w.len() implies is_space(#[trigger] w[i]) by {
        if i > 0 {
            assert(w[i] == u[i - 1]);
        }
    }
    lemma_trimmed_blank(joined(parts, "\n"@), w);
}

proof fn lemma_one_blank_line(lines: Seq<Seq<char>>, b: Seq<char>)
    requires
        blank(b),
    ensures
        reply_blocks(lines.push(b)) == reply_blocks(lines),
    decreases lines.len(),
{
    let all = lines.push(b);
    lemma_blank(b);
    if lines.len() == 0 {
        assert(all.skip(1) =~= lines);
    } else if !reply_start(lines[0]) {
        assert(all.skip(1) =~= lines.skip(1).push(b));
        lemma_one_blank_line(lines.skip(1), b);
    } else {
        let below = lines.skip(1);
        let n = block_len(below);
        lemma_block_len(below);
        lemma_block_len_continues(below);
        assert(all.skip(1) =~= below.push(b));
        if n < below.len() {
            let longer = below.push(b);
            assert forall|k: int| 0 <= k < n implies !reply_start(#[trigger] longer[k])
                && !block_boundary(longer[k]) by {
                assert(longer[k] == below[k]);
            }
            assert(longer[n] == below[n]);
            lemma_block_len_is(longer, n);
            assert(all.subrange(1, n + 1) =~= lines.subrange(1, n + 1));
            assert(all.skip(n + 1) =~= lines.skip(n + 1).push(b));
            lemma_one_blank_line(lines.skip(n + 1), b);
        } else {
            let longer = below.push(b);
            assert forall|k: int| 0 <= k < n + 1 implies !reply_start(#[trigger] longer[k])
                && !block_boundary(longer[k]) by {
                if k < n {
                    assert(longer[k] == below[k]);
                }
            }
            lemma_block_len_is(longer, n + 1);
            lemma_block_text_blank(lines, b);
            assert(all.skip(n + 2) =~= Seq::empty());
            assert(lines.skip(n + 1) =~= Seq::empty());
        }
    }
}

/// The lines that continue a block do so one by one, and the next one does not.
proof fn lemma_block_len_continues(lines: Seq<Seq<char>>)
    ensures
        forall|k: int|
            0 <= k < block_len(lines) ==> !reply_start(#[trigger] lines[k]) && !block_boundary(
                lines[k],
            ),
        block_len(lines) < lines.len() ==> reply_start(lines[block_len(lines)]) || block_boundary(
            lines[block_len(lines)],
        ),
    decreases lines.len(),
{
    if lines.len() > 0 && !reply_start(lines[0]) && !block_boundary(lines[0]) {
        let t = lines.skip(1);
        lemma_block_len(t);
        lemma_block_len_continues(t);
        assert forall|k: int| 0 <= k < block_len(lines) implies !reply_start(#[trigger] lines[k])
            && !block_boundary(lines[k]) by {
            if k > 0 {
                assert(t[k - 1] == lines[k]);
            }
        }
    }
}

/// Blank lines at the end of a screen change nothing: a block has the same
/// text however far the screen below it is filled.
pub proof fn law_trailing_blank_lines_do_not_matter(
    lines: Seq<Seq<char>>,
    blanks: Seq<Seq<char>>,
)
    requires
        forall|i: int| 0 <= i < blanks.len() ==> blank(#[trigger] blanks[i]),
    ensures
        reply_blocks(lines + blanks) == reply_blocks(lines),
    decreases blanks.len(),
{
    if blanks.len() == 0 {
        assert(lines + blanks =~= lines);
    } else {
        let fewer = blanks.drop_last();
        assert(blank(blanks[blanks.len() - 1]));
        law_trailing_blank_lines_do_not_matter(lines, fewer);
        lemma_one_blank_line(lines + fewer, blanks.last());
        assert(lines + blanks =~= (lines + fewer).push(blanks.last()));
    }
}

proof fn lemma_trim_end_ends(s: Seq<char>)
    ensures
        trim_end(s).len() > 0 ==> !is_space(trim_end(s).last()) && s.len() > 0 && trim_end(s)[0]
            == s[0],
        trim_end(s).len() > 0 ==> trim_end(trim_end(s)) == trim_end(s),
    decreases s.len(),
{
    if s.len() > 0 && is_space(s.last()) {
        lemma_trim_end_ends(s.drop_last());
    }
}

proof fn lemma_trim_start_starts(s: Seq<char>)
    ensures
        trim_start(s).len() > 0 ==> !is_space(trim_start(s)[0]),
    decreases s.len(),
{
    if s.len() > 0 && is_space(s[0]) {
        lemma_trim_start_starts(s.skip(1));
    }
}

proof fn lemma_trimmed_again(s: Seq<char>)
    ensures
        trimmed(trimmed(s)) == trimmed(s),
{
    let t = trim_start(s);
    lemma_trim_start_starts(s);
    lemma_trim_end_ends(t);
}

/// Whether line `at` of a screen starts a reply that is told as `text`.
pub open spec fn tells(lines: Seq<Seq<char>>, at: int, text: Seq<char>) -> bool {
    &&& 0 <= at < lines.len()
    &&& reply_start(lines[at])
    &&& !tool_call(unmarked(lines[at]))
    &&& text == block_text(lines.skip(at), block_len(lines.skip(at + 1)))
}

/// The blocks of a screen come in its order, one at most for each line with a
/// marker and none for a tool call: the result gives the line of each. No
/// block is empty, and none has white space around it.
pub proof fn law_blocks_come_in_order(lines: Seq<Seq<char>>) -> (at: Seq<int>)
    ensures
        at.len() == reply_blocks(lines).len(),
        forall|i: int, j: int| 0 <= i < j < at.len() ==> at[i] < at[j],
        forall|i: int| 0 <= i < at.len() ==> tells(lines, #[trigger] at[i], reply_blocks(lines)[i]),
        forall|i: int|
            0 <= i < at.len() ==> (#[trigger] reply_blocks(lines)[i]).len() > 0 && trimmed(
                reply_blocks(lines)[i],
            ) == reply_blocks(lines)[i],
    decreases lines.len(),
{
    if lines.len() == 0 {
        Seq::empty()
    } else if !reply_start(lines[0]) {
        let inner = law_blocks_come_in_order(lines.skip(1));
        let at = inner.map_values(|k: int| k + 1);
        assert forall|i: int| 0 <= i < at.len() implies tells(
            lines,
            #[trigger] at[i],
            reply_blocks(lines)[i],
        ) by {
            lemma_tells_behind(lines, 1, inner[i], reply_blocks(lines)[i]);
        }
        at
    } else {
        let n = block_len(lines.skip(1));
        lemma_block_len(lines.skip(1));
        let text = block_text(lines, n);
        let inner = law_blocks_come_in_order(lines.skip(n + 1));
        let rest = reply_blocks(lines.skip(n + 1));
        let moved = inner.map_values(|k: int| k + n + 1);
        assert forall|i: int| 0 <= i < moved.len() implies tells(lines, #[trigger] moved[i], rest[i])
            && moved[i] > 0 by {
            lemma_tells_behind(lines, n + 1, inner[i], rest[i]);
        }
        if tool_call(unmarked(lines[0])) || text.len() == 0 {
            moved
        } else {
            let at = seq![0int] + moved;
            let all = reply_blocks(lines);
            assert(all =~= seq![text] + rest);
            assert(lines.skip(0) =~= lines);
            lemma_trimmed_again(
                joined(
                    seq![unmarked(lines[0])] + lines.subrange(1, n + 1).map_values(
                        |l: Seq<char>| unindented(l),
                    ),
                    "\n"@,
                ),
            );
            assert forall|i: int| 0 <= i < at.len() implies tells(lines, #[trigger] at[i], all[i]) by {
                if i > 0 {
                    assert(at[i] == moved[i - 1]);
                    assert(all[i] == rest[i - 1]);
                }
            }
            assert forall|i: int, j: int| 0 <= i < j < at.len() implies at[i] < at[j] by {
                assert(at[j] == moved[j - 1]);
                if i > 0 {
                    assert(at[i] == moved[i - 1]);
                }
            }
            assert forall|i: int| 0 <= i < at.len() implies (#[trigger] all[i]).len() > 0
                && trimmed(all[i]) == all[i] by {
                if i > 0 {
                    assert(all[i] == rest[i - 1]);
                }
            }
            at
        }
    }
}

proof fn lemma_tells_behind(lines: Seq<Seq<char>>, n: int, at: int, text: Seq<char>)
    requires
        0 <= n <= lines.len(),
        tells(lines.skip(n), at, text),
    ensures
        tells(lines, at + n, text),
{
    assert(lines.skip(n).skip(at) =~= lines.skip(at + n));
    assert(lines.skip(n).skip(at + 1) =~= lines.skip(at + n + 1));
}

pub proof fn lemma_remembered(seen: Seq<Seq<char>>, items: Seq<Seq<char>>)
    ensures
        forall|x: Seq<char>|
            (#[trigger] remembered(seen, items).contains(x)) <==> (seen.contains(x)
                || items.contains(x)),
    decreases items.len(),
{
    if items.len() > 0 {
        let rest = items.skip(1);
        let with = if seen.contains(items[0]) {
            seen
        } else {
            seen.push(items[0])
        };
        lemma_remembered(with, rest);
        assert(remembered(seen, items) == remembered(with, rest));
        assert forall|x: Seq<char>| #[trigger]
            remembered(seen, items).contains(x) <==> (seen.contains(x) || items.contains(x)) by {
            assert(remembered(with, rest).contains(x) <==> (with.contains(x) || rest.contains(x)));
            if seen.contains(x) {
                let k = choose|k: int| 0 <= k < seen.len() && seen[k] == x;
                assert(with[k] == x);
                assert(with.contains(x));
            }
            if items.contains(x) && !seen.contains(x) {
                let k = choose|k: int| 0 <= k < items.len() && items[k] == x;
                if k > 0 {
                    assert(rest[k - 1] == x);
                    assert(rest.contains(x));
                } else {
                    assert(with[with.len() - 1] == x);
                    assert(with.contains(x));
                }
            }
            if rest.contains(x) {
                let k = choose|k: int| 0 <= k < rest.len() && rest[k] == x;
                assert(items[k + 1] == x);
                assert(items.contains(x));
            }
            if with.contains(x) && !seen.contains(x) {
                let k = choose|k: int| 0 <= k < with.len() && with[k] == x;
                assert(k == seen.len());
                assert(items[0] == x);
                assert(items.contains(x));
            }
        }
    }
}

/// Everything that is told as a text is new, and is told once.
pub proof fn lemma_new_texts(seen: Seq<Seq<char>>, items: Seq<Seq<char>>)
    ensures
        forall|i: int|
            0 <= i < new_texts(seen, items).len() ==> (#[trigger] new_texts(seen, items)[i]) is Text
                && !seen.contains(new_texts(seen, items)[i]->Text_content) && items.contains(
                new_texts(seen, items)[i]->Text_content,
            ),
        forall|i: int, j: int|
            0 <= i < j < new_texts(seen, items).len() ==> (#[trigger] new_texts(
                seen,
                items,
            )[i])->Text_content != (#[trigger] new_texts(seen, items)[j])->Text_content,
    decreases items.len(),
{
    if items.len() > 0 {
        let rest = items.skip(1);
        let all = new_texts(seen, items);
        if seen.contains(items[0]) {
            lemma_new_texts(seen, rest);
            assert forall|i: int| 0 <= i < all.len() implies (#[trigger] all[i]) is Text
                && !seen.contains(all[i]->Text_content) && items.contains(
                all[i]->Text_content,
            ) by {
                let c = all[i]->Text_content;
                assert(rest.contains(c));
                let k = choose|k: int| 0 <= k < rest.len() && rest[k] == c;
                assert(items[k + 1] == c);
            }
        } else {
            let with = seen.push(items[0]);
            let more = new_texts(with, rest);
            lemma_new_texts(with, rest);
            assert(with[with.len() - 1] == items[0]);
            assert forall|i: int| 0 <= i < all.len() implies (#[trigger] all[i]) is Text
                && !seen.contains(all[i]->Text_content) && items.contains(
                all[i]->Text_content,
            ) by {
                let c = all[i]->Text_content;
                if i == 0 {
                    assert(items[0] == c);
                } else {
                    assert(all[i] == more[i - 1]);
                    assert(rest.contains(c));
                    let k = choose|k: int| 0 <= k < rest.len() && rest[k] == c;
                    assert(items[k + 1] == c);
                    if seen.contains(c) {
                        let k = choose|k: int| 0 <= k < seen.len() && seen[k] == c;
                        assert(with[k] == c);
                    }
                }
            }
            assert forall|i: int, j: int| 0 <= i < j < all.len() implies (
            #[trigger] all[i])->Text_content != (#[trigger] all[j])->Text_content by {
                assert(all[j] == more[j - 1]);
                if i > 0 {
                    assert(all[i] == more[i - 1]);
                } else {
                    assert(!with.contains(more[j - 1]->Text_content));
                    assert(with.contains(items[0]));
                }
            }
        }
    }
}

/// No text is told twice: what is told was not told before, and is remembered.
pub proof fn law_texts_are_told_once(
    m: PollModel,
    lines: Seq<Seq<char>>,
    id: Seq<char>,
    i: int,
)
    requires
        0 <= i < on_screen(m, lines, id).1.len(),
        on_screen(m, lines, id).1[i] is Text,
    ensures
        !m.seen.contains(on_screen(m, lines, id).1[i]->Text_content),
        on_screen(m, lines, id).0.seen.contains(on_screen(m, lines, id).1[i]->Text_content),
{
    let (after, told) = on_screen(m, lines, id);
    let content = told[i]->Text_content;
    if permission_prompt(joined(lines, "\n"@)) {
    } else if selection_screen(lines) {
        let menu = selection_menu(lines);
        assert(i == 0);
        assert(after.seen[after.seen.len() - 1] == menu);
    } else if busy_screen(lines) {
    } else {
        let blocks = reply_blocks(lines);
        lemma_new_texts(m.seen, blocks);
        lemma_remembered(m.seen, blocks);
        let fresh = new_texts(m.seen, blocks);
        assert(told[i] == fresh[i]);
        assert(remembered(m.seen, blocks).contains(content));
    }
}

/// What was told stays remembered for as long as the session is there, so
/// that what stood on the screen at the start is never told.
pub proof fn law_told_texts_stay_told(
    m: PollModel,
    lines: Seq<Seq<char>>,
    id: Seq<char>,
    text: Seq<char>,
)
    requires
        m.seen.contains(text),
    ensures
        on_screen(m, lines, id).0.seen.contains(text),
{
    let k = choose|k: int| 0 <= k < m.seen.len() && m.seen[k] == text;
    let after = on_screen(m, lines, id).0;
    if permission_prompt(joined(lines, "\n"@)) {
        assert(after.seen[k] == text);
    } else if selection_screen(lines) {
        assert(after.seen[k] == text);
    } else if busy_screen(lines) {
    } else {
        lemma_remembered(m.seen, reply_blocks(lines));
    }
}

/// While a turn works, none of its reply is told: only a sign of life.
pub proof fn law_streaming_is_not_told(m: PollModel, lines: Seq<Seq<char>>)
    ensures
        on_busy(m, lines).1.len() <= 1,
        forall|i: int|
            0 <= i < on_busy(m, lines).1.len() ==> (#[trigger] on_busy(m, lines).1[i]) is Thinking
                || on_busy(m, lines).1[i] is Keepalive,
        on_busy(m, lines).0.saw_busy,
        on_busy(m, lines).0.seen == m.seen,
{
}

/// The end of a turn is told once for each time that a screen was busy: it is
/// told only where one was, and then another one has to be.
pub proof fn law_one_end_for_each_turn(m: PollModel, lines: Seq<Seq<char>>)
    ensures
        on_quiet(m, lines).1.len() > 0 ==> m.saw_busy && !on_quiet(m, lines).0.saw_busy,
        !m.saw_busy ==> !on_quiet(m, lines).0.saw_busy,
        forall|i: int|
            0 <= i < on_quiet(m, lines).1.len() - 1 ==> !((#[trigger] on_quiet(
                m,
                lines,
            ).1[i]) is Result),
{
    lemma_new_texts(m.seen, reply_blocks(lines));
}

/// A turn that ran is ended although nothing reports its end: once the input
/// box is back and the screen was still for long enough.
pub proof fn law_finished_turn_is_ended(m: PollModel, lines: Seq<Seq<char>>)
    requires
        m.saw_busy,
        m.had_content,
        input_box(lines),
        steadied(m, lines).stable_ticks >= STABLE_TICKS + HOOK_SAFETY_NET_TICKS,
    ensures
        on_quiet(m, lines).1.len() > 0,
        on_quiet(m, lines).1.last() == turn_end(),
{
}

/// Where hooks report replies, no text of a reply is taken from the screen.
pub proof fn law_hooks_leave_the_screen_alone(m: PollModel, lines: Seq<Seq<char>>)
    requires
        m.hook_relay,
    ensures
        on_quiet(m, lines).0.seen == m.seen,
        forall|i: int|
            0 <= i < on_quiet(m, lines).1.len() ==> (#[trigger] on_quiet(m, lines).1[i])
                == turn_end(),
        forall|i: int|
            0 <= i < on_busy(m, lines).1.len() ==> (#[trigger] on_busy(m, lines).1[i])
                is Keepalive,
{
}

/// A text stands in another one behind some start exactly where it stands in
/// what follows, if none of the start's characters begins it.
proof fn lemma_occurs_behind(start: Seq<char>, s: Seq<char>, p: Seq<char>)
    requires
        p.len() > 0,
        forall|i: int| 0 <= i < start.len() ==> #[trigger] start[i] != p[0],
    ensures
        occurs(start + s, p) <==> occurs(s, p),
{
    let all = start + s;
    if occurs(all, p) {
        let i = choose|i: int| #[trigger] occurs_at(all, p, i);
        assert(all.subrange(i, i + p.len())[0] == p[0]);
        assert(all[i] == p[0]);
        assert(i >= start.len());
        let j = i - start.len();
        assert(s.subrange(j, j + p.len()) =~= all.subrange(i, i + p.len()));
        assert(occurs_at(s, p, j));
    }
    if occurs(s, p) {
        let j = choose|j: int| #[trigger] occurs_at(s, p, j);
        let i = j + start.len();
        assert(all.subrange(i, i + p.len()) =~= s.subrange(j, j + p.len()));
        assert(occurs_at(all, p, i));
    }
}

/// A character that only cursors and white space are.
pub open spec fn is_lead(c: char) -> bool {
    c == '❯' || is_space(c)
}

proof fn lemma_trim_start_lead(s: Seq<char>)
    ensures
        exists|lead: Seq<char>| #[trigger]
            (lead + trim_start(s)) == s && forall|i: int| 0 <= i < lead.len() ==> is_lead(
                #[trigger] lead[i],
            ),
    decreases s.len(),
{
    if s.len() > 0 && is_space(s[0]) {
        lemma_trim_start_lead(s.skip(1));
        let lead = choose|lead: Seq<char>| #[trigger]
            (lead + trim_start(s.skip(1))) == s.skip(1) && forall|i: int|
                0 <= i < lead.len() ==> is_lead(#[trigger] lead[i]);
        let all = seq![s[0]] + lead;
        assert(all + trim_start(s) =~= seq![s[0]] + (lead + trim_start(s.skip(1))));
        assert(seq![s[0]] + s.skip(1) =~= s);
        assert forall|i: int| 0 <= i < all.len() implies is_lead(#[trigger] all[i]) by {
            if i > 0 {
                assert(all[i] == lead[i - 1]);
            }
        }
    } else {
        assert(Seq::<char>::empty() + trim_start(s) =~= s);
    }
}

proof fn lemma_cursor_lead(s: Seq<char>)
    ensures
        exists|lead: Seq<char>| #[trigger]
            (lead + strip_cursor(s)) == s && forall|i: int| 0 <= i < lead.len() ==> is_lead(
                #[trigger] lead[i],
            ),
    decreases s.len(),
{
    if s.len() > 0 && s[0] == '❯' {
        lemma_cursor_lead(s.skip(1));
        let lead = choose|lead: Seq<char>| #[trigger]
            (lead + strip_cursor(s.skip(1))) == s.skip(1) && forall|i: int|
                0 <= i < lead.len() ==> is_lead(#[trigger] lead[i]);
        let all = seq![s[0]] + lead;
        assert(all + strip_cursor(s) =~= seq![s[0]] + (lead + strip_cursor(s.skip(1))));
        assert(seq![s[0]] + s.skip(1) =~= s);
        assert forall|i: int| 0 <= i < all.len() implies is_lead(#[trigger] all[i]) by {
            if i > 0 {
                assert(all[i] == lead[i - 1]);
            }
        }
    } else {
        assert(Seq::<char>::empty() + strip_cursor(s) =~= s);
    }
}

/// What a line is told apart by does not depend on the cursor before it.
proof fn lemma_cursor_does_not_matter(line: Seq<char>)
    ensures
        ({
            let t = trimmed(line);
            let u = uncursored(line);
            &&& selection_footer(t) <==> selection_footer(u)
            &&& t.contains('☐') <==> u.contains('☐')
            &&& t.contains('☑') <==> u.contains('☑')
            &&& occurs(t, "Submit"@) <==> occurs(u, "Submit"@)
            &&& u.len() > 0 ==> t.len() > 0
        }),
{
    let t = trimmed(line);
    let s = strip_cursor(t);
    let u = trim_start(s);
    lemma_cursor_lead(t);
    lemma_trim_start_lead(s);
    let a = choose|lead: Seq<char>| #[trigger]
        (lead + s) == t && forall|i: int| 0 <= i < lead.len() ==> is_lead(#[trigger] lead[i]);
    let b = choose|lead: Seq<char>| #[trigger]
        (lead + u) == s && forall|i: int| 0 <= i < lead.len() ==> is_lead(#[trigger] lead[i]);
    let lead = a + b;
    assert(lead + u =~= t);
    assert forall|i: int| 0 <= i < lead.len() implies is_lead(#[trigger] lead[i]) by {
        if i < a.len() {
            assert(lead[i] == a[i]);
        } else {
            assert(lead[i] == b[i - a.len()]);
        }
    }
    reveal_strlit("Enter to select");
    reveal_strlit("to navigate");
    reveal_strlit("to cancel");
    reveal_strlit("Submit");
    lemma_occurs_behind(lead, u, "Enter to select"@);
    lemma_occurs_behind(lead, u, "to navigate"@);
    lemma_occurs_behind(lead, u, "to cancel"@);
    lemma_occurs_behind(lead, u, "Submit"@);
    lemma_contains_behind(lead, u, '☐');
    lemma_contains_behind(lead, u, '☑');
}

proof fn lemma_contains_behind(lead: Seq<char>, u: Seq<char>, c: char)
    requires
        !is_lead(c),
        forall|i: int| 0 <= i < lead.len() ==> is_lead(#[trigger] lead[i]),
    ensures
        (lead + u).contains(c) <==> u.contains(c),
{
    let all = lead + u;
    if all.contains(c) {
        let i = choose|i: int| 0 <= i < all.len() && all[i] == c;
        if i < lead.len() {
            assert(all[i] == lead[i]);
        }
        assert(u[i - lead.len()] == c);
    }
    if u.contains(c) {
        let i = choose|i: int| 0 <= i < u.len() && u[i] == c;
        assert(all[i + lead.len()] == c);
    }
}

/// Whether two screens differ at most in where the cursor stands: a line that
/// differs has the same text behind the cursor, and some text at all.
pub open spec fn cursor_moved(a: Seq<Seq<char>>, b: Seq<Seq<char>>) -> bool {
    &&& a.len() == b.len()
    &&& forall|i: int|
        0 <= i < a.len() ==> #[trigger] a[i] == b[i] || (uncursored(a[i]) == uncursored(b[i])
            && uncursored(a[i]).len() > 0 && !is_rule(trimmed(a[i])) && !is_rule(trimmed(b[i])))
}

proof fn lemma_menu_ignores_cursor(a: Seq<Seq<char>>, b: Seq<Seq<char>>)
    requires
        cursor_moved(a, b),
    ensures
        menu_lines(a) == menu_lines(b),
    decreases a.len(),
{
    if a.len() > 0 {
        assert(a[0] == b[0] || uncursored(a[0]) == uncursored(b[0]));
        lemma_cursor_does_not_matter(a[0]);
        lemma_cursor_does_not_matter(b[0]);
        let (x, y) = (a.skip(1), b.skip(1));
        assert forall|i: int| 0 <= i < x.len() implies #[trigger] x[i] == y[i] || (uncursored(x[i])
            == uncursored(y[i]) && uncursored(x[i]).len() > 0 && !is_rule(trimmed(x[i]))
            && !is_rule(trimmed(y[i]))) by {
            assert(x[i] == a[i + 1]);
            assert(y[i] == b[i + 1]);
        }
        lemma_menu_ignores_cursor(x, y);
    }
}

/// The message for a menu is the same wherever the cursor stands, so that a
/// menu is told once and not for every move of the cursor.
pub proof fn law_menu_ignores_cursor(a: Seq<Seq<char>>, b: Seq<Seq<char>>)
    requires
        cursor_moved(a, b),
    ensures
        selection_menu(a) == selection_menu(b),
{
    lemma_menu_ignores_cursor(a, b);
}

/// Only text of the form of a call is a tool call: an ASCII capital letter, then
/// ASCII letters, digits and underscores, then a bracket. Whatever else stands
/// before the first bracket, white space too, makes it prose.
pub proof fn law_tool_call_has_the_form_of_a_call(first: Seq<char>)
    ensures
        tool_call(first) <==> exists|a: int, n: int| #[trigger] called_at(first, a, n),
{
    let t = trim_start(first);
    let a = first.len() - t.len();
    lemma_trim_start_skips(first);
    lemma_first_of_bounds(t, '(');
    if tool_call(first) {
        let n = a + first_of(t, '(');
        assert forall|i: int| a <= i < n implies ({
            let c = #[trigger] first[i];
            'A' <= c <= 'Z' || 'a' <= c <= 'z' || '0' <= c <= '9' || c == '_'
        }) by {
            assert(first[i] == t[i - a]);
        }
        assert(first[a] == t[0]);
        assert(first[n] == t[n - a]);
        assert(called_at(first, a, n));
    }
    if exists|b: int, n: int| #[trigger] called_at(first, b, n) {
        let (b, n) = choose|b: int, n: int| #[trigger] called_at(first, b, n);
        if b < a {
            assert(is_space(first[b]));
        } else if b > a {
            assert(is_space(first[a]));
            assert(first[a] == t[0]);
        }
        assert forall|k: int| 0 <= k < n - a implies #[trigger] t[k] != '(' by {
            assert(t[k] == first[a + k]);
        }
        assert(t[n - a] == first[n]);
        lemma_first_of(t, '(', n - a);
        assert forall|i: int| 0 <= i < n - a implies name_char(#[trigger] t[i]) by {
            assert(t[i] == first[a + i]);
        }
        assert(t[0] == first[a]);
    }
}

/// Whether behind white space a name of ASCII letters, digits and underscores,
/// with a capital letter first, stands from `a` on up to a bracket at `n`.
pub open spec fn called_at(s: Seq<char>, a: int, n: int) -> bool {
    &&& 0 <= a < n < s.len()
    &&& forall|i: int| 0 <= i < a ==> is_space(#[trigger] s[i])
    &&& 'A' <= s[a] <= 'Z'
    &&& forall|i: int|
        a <= i < n ==> ({
            let c = #[trigger] s[i];
            'A' <= c <= 'Z' || 'a' <= c <= 'z' || '0' <= c <= '9' || c == '_'
        })
    &&& s[n] == '('
}

proof fn lemma_trim_start_skips(s: Seq<char>)
    ensures
        trim_start(s).len() <= s.len(),
        trim_start(s) == s.skip(s.len() - trim_start(s).len()),
        forall|i: int| 0 <= i < s.len() - trim_start(s).len() ==> is_space(#[trigger] s[i]),
        trim_start(s).len() > 0 ==> !is_space(trim_start(s)[0]),
    decreases s.len(),
{
    if s.len() > 0 && is_space(s[0]) {
        let t = s.skip(1);
        lemma_trim_start_skips(t);
        assert(t.skip(t.len() - trim_start(t).len()) =~= s.skip(s.len() - trim_start(s).len()));
        assert forall|i: int| 0 <= i < s.len() - trim_start(s).len() implies is_space(
            #[trigger] s[i],
        ) by {
            if i > 0 {
                assert(s[i] == t[i - 1]);
            }
        }
    } else {
        assert(s.skip(0) =~= s);
    }
}

/// Prose is told: the reply that starts at a line with a marker is among the
/// replies of the screen, unless what stands behind the marker has the form of
/// a call or the reply is empty.
pub proof fn law_prose_is_told(lines: Seq<Seq<char>>, at: int)
    requires
        0 <= at < lines.len(),
        reply_start(lines[at]),
        forall|a: int, n: int| !#[trigger] called_at(unmarked(lines[at]), a, n),
        block_text(lines.skip(at), block_len(lines.skip(at + 1))).len() > 0,
    ensures
        reply_blocks(lines).contains(block_text(lines.skip(at), block_len(lines.skip(at + 1)))),
    decreases lines.len(),
{
    law_tool_call_has_the_form_of_a_call(unmarked(lines[at]));
    let text = block_text(lines.skip(at), block_len(lines.skip(at + 1)));
    if !reply_start(lines[0]) {
        lemma_told_behind(lines, 1, at);
        law_prose_is_told(lines.skip(1), at - 1);
    } else {
        let n = block_len(lines.skip(1));
        lemma_block_len(lines.skip(1));
        lemma_block_len_continues(lines.skip(1));
        let rest = reply_blocks(lines.skip(n + 1));
        if at == 0 {
            assert(lines.skip(0) =~= lines);
            assert(reply_blocks(lines)[0] == text);
        } else {
            if at <= n {
                assert(lines.skip(1)[at - 1] == lines[at]);
                assert(false);
            }
            lemma_told_behind(lines, n + 1, at);
            law_prose_is_told(lines.skip(n + 1), at - (n + 1));
            let i = choose|i: int| 0 <= i < rest.len() && rest[i] == text;
            let all = reply_blocks(lines);
            if all.len() == rest.len() {
                assert(all[i] == text);
            } else {
                assert(all[i + 1] == text);
            }
        }
    }
}

proof fn lemma_told_behind(lines: Seq<Seq<char>>, n: int, at: int)
    requires
        0 <= n <= at < lines.len(),
    ensures
        lines.skip(n)[at - n] == lines[at],
        lines.skip(n).skip(at - n) == lines.skip(at),
        lines.skip(n).skip(at - n + 1) == lines.skip(at + 1),
{
    assert(lines.skip(n).skip(at - n) =~= lines.skip(at));
    assert(lines.skip(n).skip(at - n + 1) =~= lines.skip(at + 1));
}

/// What is typed is the text as it is, whatever stands in it: behind the end of
/// the options, before Enter, in the session that is named.
pub proof fn law_text_is_typed_as_it_is(session: Seq<char>, text: Seq<char>)
    ensures
        ({
            let a = typed_args(session, text);
            let n = a.len();
            &&& a[n - 2] == text
            &&& a[n - 1] == "Enter"@
            &&& a[n - 3] == "--"@
            &&& exists|i: int| 0 <= i < n - 3 && #[trigger] a[i] == "-t"@ && a[i + 1] == session
        }),
{
    let a = typed_args(session, text);
    assert(a[1] == "-t"@ && a[2] == session);
}

/// A permission menu is answered with the key of the option: "1. Yes" grants,
/// "3. No" refuses.
pub proof fn law_menu_is_answered_by_its_keys(allow: bool)
    ensures
        option_in(key_for(true) + ". Yes"@) is Some,
        option_in(key_for(true) + ". Yes"@)->0 == (1nat, "Yes"@),
        option_in(key_for(false) + ". No"@) is Some,
        option_in(key_for(false) + ". No"@)->0 == (3nat, "No"@),
{
    reveal_strlit("1");
    reveal_strlit("3");
    reveal_strlit(". Yes");
    reveal_strlit(". No");
    reveal_strlit("Yes");
    reveal_strlit("No");
    let a = "1"@ + ". Yes"@;
    let b = "3"@ + ". No"@;
    lemma_first_of(a, '.', 1);
    lemma_first_of(b, '.', 1);
    assert(a.take(1) =~= "1"@);
    assert(b.take(1) =~= "3"@);
    lemma_one_digit('1');
    lemma_one_digit('3');
    assert("1"@ =~= seq!['1']);
    assert("3"@ =~= seq!['3']);
    lemma_trim_start(a.skip(2), 1);
    lemma_trim_start(b.skip(2), 1);
    assert(a.skip(2).skip(1) =~= "Yes"@);
    assert(b.skip(2).skip(1) =~= "No"@);
}

proof fn lemma_one_digit(c: char)
    requires
        '0' <= c <= '9',
    ensures
        number_in(seq![c]) == Some((c as int - '0' as int) as nat),
{
    let s = seq![c];
    assert(s.drop_last() =~= Seq::<char>::empty());
    assert(value(Seq::<char>::empty()) == 0);
    assert(value(s) == c as int - 48);
}

/// An option of a menu is its number, a dot and its text.
pub proof fn law_option_is_its_number_and_text(n: nat, text: Seq<char>)
    requires
        n <= u32::MAX,
        text.len() > 0,
        !is_space(text[0]),
    ensures
        option_in(decimal(n) + ". "@ + text) == Some((n, text)),
{
    reveal_strlit(". ");
    let d = decimal(n);
    let s = d + ". "@ + text;
    law_decimal_reads_back(n);
    assert forall|k: int| 0 <= k < d.len() implies #[trigger] s[k] != '.' by {
        assert(s[k] == d[k]);
        assert('0' <= d[k] <= '9');
    }
    lemma_first_of(s, '.', d.len() as int);
    assert(s.take(d.len() as int) =~= d);
    law_number_reads_back(n);
    let left = s.skip(d.len() as int + 1);
    assert(left[0] == ' ');
    assert(left.skip(1) =~= text);
    lemma_trim_start(left, 1);
}

/// The keycap of a number shows that number.
pub proof fn law_keycap_shows_its_number(n: nat)
    requires
        1 <= n <= 9,
    ensures
        keycap_of(n) is Some,
        keycap_of(n)->0.len() > 0,
        keycap_of(n)->0[0] as int == '0' as int + n,
        keycap_of(0) is None,
        keycap_of(10) is None,
{
    reveal_strlit("1\u{fe0f}\u{20e3}");
    reveal_strlit("2\u{fe0f}\u{20e3}");
    reveal_strlit("3\u{fe0f}\u{20e3}");
    reveal_strlit("4\u{fe0f}\u{20e3}");
    reveal_strlit("5\u{fe0f}\u{20e3}");
    reveal_strlit("6\u{fe0f}\u{20e3}");
    reveal_strlit("7\u{fe0f}\u{20e3}");
    reveal_strlit("8\u{fe0f}\u{20e3}");
    reveal_strlit("9\u{fe0f}\u{20e3}");
}

/// Each option of a menu that is of use in a chat is shown with its text, and
/// its number where that has a keycap; a line before the options is shown too.
pub proof fn law_options_are_shown(
    out: Seq<Seq<char>>,
    seen: bool,
    line: Seq<char>,
    n: nat,
    text: Seq<char>,
)
    requires
        option_in(line) == Some((n, text)),
        !meta_option(text),
    ensures
        ({
            let after = laid_out(out, seen, seq![line]);
            &&& after.len() == out.len() + 1
            &&& after.drop_last() == out
            &&& occurs(after.last(), text)
            &&& 1 <= n <= 9 ==> after.last()[0] as int == '0' as int + n
        }),
{
    let cap = match keycap_of(n) {
        Some(k) => k,
        None => "•"@,
    };
    let shown = cap + " **"@ + text + "**"@;
    assert(seq![line].skip(1) =~= Seq::empty());
    let after = laid_out(out, seen, seq![line]);
    assert(laid_out(out.push(shown), true, Seq::empty()) == out.push(shown));
    assert(after == out.push(shown));
    assert(after.drop_last() =~= out);
    lemma_occurs_in(cap + " **"@, text, "**"@);
    if 1 <= n <= 9 {
        law_keycap_shows_its_number(n);
    }
}

/// A finished turn's footer is known by its form: a glyph, whatever verb, "for"
/// and a number of seconds.
pub proof fn law_footer_is_known_by_its_form(glyph: char, verb: Seq<char>, secs: nat)
    requires
        glyph != '⏺' && glyph != '-' && glyph != '•',
    ensures
        footer(seq![glyph] + verb + " for "@ + decimal(secs) + "s"@, false),
        !footer(seq![glyph] + verb + " for "@ + decimal(secs) + "s"@, true),
{
    reveal_strlit(" for ");
    reveal_strlit("s");
    let d = decimal(secs);
    let head = seq![glyph] + verb + " for "@;
    let t = head + d + "s"@;
    law_decimal_reads_back(secs);
    let k = head.len() as int;
    assert(t.subrange(k, t.len() - 1) =~= d);
    assert(t.take(k) =~= head);
    assert(" for "@ =~= head.skip(head.len() - 5));
    assert(seconds_from(t, k));
    assert(t =~= seq![glyph] + verb + " for "@ + d + "s"@);
}

/// Nothing is a footer that does not end like one: in seconds or trailing off.
pub proof fn law_footer_ends_like_one(t: Seq<char>, worded: bool)
    requires
        footer(t, worded),
    ensures
        !worded,
        t.last() == '…' || t.last() == '.' || (t.last() == 's' && t.len() > 1 && '0' <= t[t.len()
            - 2] <= '9'),
{
    reveal_strlit("…");
    reveal_strlit("...");
    if "…"@.is_suffix_of(t) {
        assert(t.last() == "…"@.last());
    } else if "..."@.is_suffix_of(t) {
        assert(t.last() == "..."@.last());
    } else {
        let k = choose|k: int| seconds_from(t, k);
        let c = t.subrange(k, t.len() - 1);
        assert(c[c.len() - 1] == t[t.len() - 2]);
    }
}

/// A turn is at work where the screen says how to interrupt it, or where a line
/// near its end has a spinner and trails off. The footer of a finished turn is
/// no sign of work, nor is anything far up.
pub proof fn law_signs_of_work(lines: Seq<Seq<char>>)
    ensures
        (exists|i: int| 0 <= i < lines.len() && occurs(#[trigger] lines[i], "esc to interrupt"@))
            ==> busy_screen(lines),
        busy_screen(lines) ==> exists|i: int|
            0 <= i < lines.len() && (occurs(#[trigger] lines[i], "esc to interrupt"@) || (i
                >= lines.len() - 15 && (trimmed(lines[i]).last() == '…' || trimmed(lines[i]).last()
                == '.'))),
{
    reveal_strlit("…");
    reveal_strlit("...");
    if busy_screen(lines) && !(exists|i: int|
        0 <= i < lines.len() && occurs(#[trigger] lines[i], "esc to interrupt"@)) {
        let i = choose|i: int|
            lines.len() - TAIL <= i < lines.len() && 0 <= i && spinner_line(#[trigger] lines[i]);
        let t = trimmed(lines[i]);
        if "…"@.is_suffix_of(t) {
            assert(t.last() == "…"@.last());
        } else {
            assert(t.last() == "..."@.last());
        }
        assert(i >= lines.len() - 15);
    }
}

/// A line with a spinner that trails off, within the last lines, is a sign of
/// work.
pub proof fn law_spinner_is_a_sign_of_work(lines: Seq<Seq<char>>, i: int, verb: Seq<char>)
    requires
        0 <= i < lines.len(),
        i >= lines.len() - 15,
        lines[i] == seq!['✽'] + verb + "…"@ || lines[i] == seq!['✻'] + verb + "…"@,
    ensures
        busy_screen(lines),
{
    reveal_strlit("…");
    let t = lines[i];
    assert(t.last() == '…');
    assert(!is_space('…') && !is_space('✽') && !is_space('✻'));
    assert(trimmed(t) == t);
    assert("…"@ =~= t.skip(t.len() - 1));
    assert(spinner_line(lines[i]));
}

/// What stands behind the marker of a reply is its first line; continuation
/// lines lose the two spaces of their indentation and nothing else.
pub proof fn law_reply_keeps_its_lines(text: Seq<char>)
    requires
        text.len() > 0,
        !is_space(text[0]),
    ensures
        reply_start("⏺ "@ + text),
        unmarked("⏺ "@ + text) == text,
        unindented("  "@ + text) == text,
{
    reveal_strlit("⏺ ");
    reveal_strlit("⏺");
    reveal_strlit("  ");
    let a = "⏺ "@ + text;
    assert(!is_space('⏺'));
    assert("⏺"@ =~= a.take(1));
    let left = a.skip(1);
    assert(left[0] == ' ');
    assert(left.skip(1) =~= text);
    lemma_trim_start(left, 1);
    assert("  "@ =~= ("  "@ + text).take(2));
    assert(("  "@ + text).skip(2) =~= text);
}

/// A reply of one line is told as it is, whatever stands around it on the
/// screen: the line starts with the marker, is no call, and ends before a line
/// that ends a block.
pub proof fn law_one_line_reply_is_told(text: Seq<char>, below: Seq<Seq<char>>)
    requires
        text.len() > 0,
        trimmed(text) == text,
        forall|a: int, n: int| !#[trigger] called_at(text, a, n),
        below.len() > 0 ==> reply_start(below[0]) || block_boundary(below[0]),
    ensures
        reply_blocks(seq!["⏺ "@ + text] + below) == seq![text] + reply_blocks(below),
{
    let (a, b) = law_trimmed_stands_in_the_text(text);
    law_reply_keeps_its_lines(text);
    law_tool_call_has_the_form_of_a_call(text);
    let lines = seq!["⏺ "@ + text] + below;
    assert(lines.skip(1) =~= below);
    assert(block_len(below) == 0);
    let parts = seq![unmarked(lines[0])] + lines.subrange(1, 1).map_values(
        |l: Seq<char>| unindented(l),
    );
    assert(parts =~= seq![text]);
    assert(block_text(lines, 0) == text);
}

/// A session that is gone is restarted at most once, and only where that is
/// wanted; the next time it is given up.
pub proof fn law_session_is_restarted_once(m: PollModel)
    ensures
        !missed(missed(m).0).1,
        !m.auto_restart ==> !missed(m).1,
        m.auto_restart && !m.restart_used ==> missed(m).1,
        missed(m).0.seen == m.seen,
{
}

/// A busy screen tells no text: a sign of life at most, which is a mere one
/// where hooks report.
pub proof fn law_busy_screen_tells_no_text(m: PollModel, lines: Seq<Seq<char>>)
    ensures
        ({
            let told = on_busy(m, lines).1;
            &&& told.len() <= 1
            &&& on_busy(m, lines).0.saw_busy
            &&& told.len() == 1 && m.hook_relay ==> told[0] is Keepalive
            &&& told.len() == 1 && !m.hook_relay ==> told[0] is Thinking
        }),
{
}

/// A permission menu on the screen is put to the user, once, with its text.
pub proof fn law_permission_menu_is_put_to_the_user(m: PollModel, menu: Seq<char>, id: Seq<char>)
    requires
        !m.seen.contains(menu),
    ensures
        ({
            let (after, told) = on_permission_menu(m, menu, id);
            &&& told.len() == 1
            &&& told[0] matches Told::PermissionRequest { request_id, tool, input, options }
                && request_id == id && as_text(member(input, "prompt"@)) == Some(menu)
            &&& on_permission_menu(after, menu, id).1.len() == 0
        }),
{
    let (after, told) = on_permission_menu(m, menu, id);
    assert(after.seen[after.seen.len() - 1] == menu);
}

/// The lines of a permission menu are lines of the screen, trimmed, and none of
/// them is empty or the footer.
pub proof fn law_menu_lines_are_of_the_screen(lines: Seq<Seq<char>>)
    ensures
        forall|i: int|
            0 <= i < permission_lines(lines).len() ==> ({
                let t = #[trigger] permission_lines(lines)[i];
                &&& t.len() > 0
                &&& !occurs(t, "Esc to cancel"@) && !occurs(t, "Tab to amend"@)
                &&& exists|k: int| 0 <= k < lines.len() && trimmed(#[trigger] lines[k]) == t
            }),
        lines.len() > 0 && trimmed(lines[0]).len() > 0 && !occurs(
            trimmed(lines[0]),
            "Esc to cancel"@,
        ) && !occurs(trimmed(lines[0]), "Tab to amend"@) ==> permission_lines(lines).len() > 0
            && permission_lines(lines)[0] == trimmed(lines[0]),
    decreases lines.len(),
{
    if lines.len() > 0 && !permission_footer(trimmed(lines[0])) {
        let rest = lines.skip(1);
        law_menu_lines_are_of_the_screen(rest);
        let all = permission_lines(lines);
        assert forall|i: int| 0 <= i < all.len() implies ({
            let t = #[trigger] all[i];
            &&& t.len() > 0
            &&& !occurs(t, "Esc to cancel"@) && !occurs(t, "Tab to amend"@)
            &&& exists|k: int| 0 <= k < lines.len() && trimmed(#[trigger] lines[k]) == t
        }) by {
            if trimmed(lines[0]).len() > 0 && i == 0 {
                assert(trimmed(lines[0]) == all[0]);
            } else {
                let j = if trimmed(lines[0]).len() > 0 {
                    i - 1
                } else {
                    i
                };
                assert(all[i] == permission_lines(rest)[j]);
                let k = choose|k: int|
                    0 <= k < rest.len() && trimmed(#[trigger] rest[k]) == permission_lines(rest)[j];
                assert(trimmed(lines[k + 1]) == all[i]);
            }
        }
    }
}

/// A session that exists is attached to and never created again; one that does
/// not exist is created only where that is wanted.
pub proof fn law_session_is_come_by(found: bool, auto_start: bool)
    ensures
        planned(true, auto_start) == Some(Start::Attach),
        planned(found, auto_start) == Some(Start::Create) <==> !found && auto_start,
        planned(found, auto_start) is None <==> !found && !auto_start,
{
}

/// Interrupting a turn ends no session, and nothing is done to one that is gone.
pub proof fn law_interrupting_ends_nothing(alive: bool)
    ensures
        interrupting(alive) is Some <==> alive,
        interrupting(alive) != Some(CloseStep::Exit) && interrupting(alive) != Some(
            CloseStep::ControlC,
        ),
{
}

/// Every call names the session that it is about, right behind the option for
/// it, and carries what it is to do: the key, the directory.
pub proof fn law_calls_name_the_session(session: Seq<char>, what: Seq<char>)
    ensures
        asking_args(session)[0] == "has-session"@ && asking_args(session).last() == session,
        asking_args(session)[1] == "-t"@,
        creating_args(session, what)[0] == "new-session"@ && creating_args(session, what)[2]
            == "-s"@ && creating_args(session, what)[3] == session,
        creating_args(session, what).last() == what && creating_args(
            session,
            what,
        )[creating_args(session, what).len() - 2] == "-c"@,
        pressing_args(session, what)[0] == "send-keys"@ && pressing_args(session, what)[1] == "-t"@
            && pressing_args(session, what)[2] == session,
        pressing_args(session, what).last() == what,
        capturing_args(session)[0] == "capture-pane"@ && capturing_args(session)[1] == "-t"@
            && capturing_args(session)[2] == session,
        capturing_args(session).contains("-p"@),
{
    assert(capturing_args(session)[3] == "-p"@);
}

/// Errors are told with the session they are about and with what was said of
/// them, without the white space around it.
pub proof fn law_errors_tell_what_was_said(
    session: Seq<char>,
    what: Seq<char>,
    stderr: Seq<char>,
    again: bool,
)
    ensures
        what.is_prefix_of(call_failure(what, stderr)),
        trimmed(stderr).is_suffix_of(call_failure(what, stderr)),
        occurs(creation_failure(session, again, stderr), "'"@ + session + "'"@),
        trimmed(stderr).is_suffix_of(creation_failure(session, again, stderr)),
        creation_failure(session, true, stderr) != creation_failure(session, false, stderr),
        occurs(restart_failure(session, stderr), "'"@ + session + "'"@),
        stderr.is_suffix_of(restart_failure(session, stderr)),
{
    let t = trimmed(stderr);
    let c = call_failure(what, stderr);
    assert(what =~= c.take(what.len() as int));
    assert(t =~= c.skip(c.len() - t.len()));
    reveal_strlit("tmux: failed to recreate session '");
    reveal_strlit("tmux: failed to create session '");
    reveal_strlit("tmux: failed to recreate session ");
    reveal_strlit("tmux: failed to create session ");
    reveal_strlit("tmux: auto_restart of '");
    reveal_strlit("tmux: auto_restart of ");
    reveal_strlit("'");
    reveal_strlit("': ");
    reveal_strlit(": ");
    reveal_strlit("' failed: ");
    reveal_strlit(" failed: ");
    assert("tmux: failed to recreate session '"@ =~= "tmux: failed to recreate session "@ + "'"@);
    assert("tmux: failed to create session '"@ =~= "tmux: failed to create session "@ + "'"@);
    assert("tmux: auto_restart of '"@ =~= "tmux: auto_restart of "@ + "'"@);
    assert("': "@ =~= "'"@ + ": "@);
    assert("' failed: "@ =~= "'"@ + " failed: "@);
    let f = creation_failure(session, again, stderr);
    let head = if again {
        "tmux: failed to recreate session "@
    } else {
        "tmux: failed to create session "@
    };
    let name = "'"@ + session + "'"@;
    assert(f =~= head + name + (": "@ + t));
    lemma_occurs_in(head, name, ": "@ + t);
    assert(t =~= f.skip(f.len() - t.len()));
    assert(creation_failure(session, true, stderr).len() == creation_failure(
        session,
        false,
        stderr,
    ).len() + 2);
    let r = restart_failure(session, stderr);
    assert(r =~= "tmux: auto_restart of "@ + name + (" failed: "@ + stderr));
    lemma_occurs_in("tmux: auto_restart of "@, name, " failed: "@ + stderr);
    assert(stderr =~= r.skip(r.len() - stderr.len()));
}

/// On a recreated session everything can be told anew, and it is still not
/// recreated a second time.
pub proof fn law_recreated_session_starts_afresh(m: PollModel)
    ensures
        restarted(m).seen.len() == 0 && !restarted(m).had_content,
        restarted(m).session_name == m.session_name,
        restarted(m).restart_used == m.restart_used,
        m.auto_restart && !m.restart_used ==> missed(m).1 && !missed(restarted(missed(m).0)).1,
{
}

/// A program that was just started is waited for until its banner and its input
/// box stand on the screen, and given up after the time for that and not before.
pub proof fn law_start_is_waited_for(
    screen: Option<Seq<Seq<char>>>,
    banner: Seq<char>,
    waited_ms: u64,
    i: int,
    j: int,
)
    ensures
        screen is Some && 0 <= i < screen->0.len() && 0 <= j < screen->0.len() && occurs(
            screen->0[i],
            banner,
        ) && box_border(screen->0[j]) ==> launched(screen, banner, waited_ms) == Launch::Ready,
        screen is None ==> launched(screen, banner, waited_ms) != Launch::Ready,
        screen is Some && (forall|k: int| 0 <= k < screen->0.len() ==> !occurs(screen->0[k], banner))
            ==> launched(screen, banner, waited_ms) != Launch::Ready,
        screen is Some && (forall|k: int|
            0 <= k < screen->0.len() ==> !box_border(#[trigger] screen->0[k])) ==> launched(
            screen,
            banner,
            waited_ms,
        ) != Launch::Ready,
        launched(screen, banner, waited_ms) == Launch::GivenUp ==> waited_ms >= READY_WAIT_MS,
        launched(screen, banner, waited_ms) == Launch::Again ==> waited_ms < READY_WAIT_MS,
{
}

/// What stood on the screen when a poll began is not told: all of its replies
/// count as seen, and nothing as read.
pub proof fn law_poll_starts_with_what_was_there(
    session: Seq<char>,
    auto_restart: bool,
    hook_relay: bool,
    lines: Seq<Seq<char>>,
    block: Seq<char>,
)
    ensures
        ({
            let m = fresh_poll(session, auto_restart, hook_relay, Some(lines));
            &&& reply_blocks(lines).contains(block) <==> m.seen.contains(block)
            &&& !m.had_content && !m.saw_busy && !m.restart_used
            &&& m.session_name == session && m.auto_restart == auto_restart && m.hook_relay
                == hook_relay
            &&& fresh_poll(session, auto_restart, hook_relay, None).seen.len() == 0
        }),
{
    lemma_remembered_holds(Seq::empty(), reply_blocks(lines), block);
}

proof fn lemma_remembered_holds(seen: Seq<Seq<char>>, items: Seq<Seq<char>>, x: Seq<char>)
    ensures
        remembered(seen, items).contains(x) <==> seen.contains(x) || items.contains(x),
    decreases items.len(),
{
    if items.len() > 0 {
        let rest = items.skip(1);
        if items.contains(x) {
            let i = choose|i: int| 0 <= i < items.len() && items[i] == x;
            if i > 0 {
                assert(rest[i - 1] == x);
                assert(rest.contains(x));
            }
        }
        if rest.contains(x) {
            let i = choose|i: int| 0 <= i < rest.len() && rest[i] == x;
            assert(items[i + 1] == x);
            assert(items.contains(x));
        }
        assert(items[0] == items[0] && items.contains(items[0]));
        if seen.contains(items[0]) {
            lemma_remembered_holds(seen, rest, x);
        } else {
            let more = seen.push(items[0]);
            lemma_remembered_holds(more, rest, x);
            if more.contains(x) {
                let i = choose|i: int| 0 <= i < more.len() && more[i] == x;
                if i < seen.len() {
                    assert(seen[i] == x);
                }
            }
            if seen.contains(x) {
                let i = choose|i: int| 0 <= i < seen.len() && seen[i] == x;
                assert(more[i] == x);
            }
            assert(more[seen.len() as int] == items[0]);
        }
    }
}

/// A session of one's own is asked to exit and then interrupted; one that was
/// attached is only interrupted, as long as it is alive.
pub proof fn law_session_ends_as_it_began(alive: bool)
    ensures
        closing(true, alive).len() == 2,
        closing(true, alive)[0] == CloseStep::Exit && closing(true, alive)[1]
            == CloseStep::ControlC,
        closing(false, alive).contains(CloseStep::Escape) <==> alive,
        closing(false, alive).len() <= 1,
{
    if alive {
        assert(closing(false, true)[0] == CloseStep::Escape);
    }
}

/// A menu to select from is one with a footer and a numbered option, on whatever
/// lines they stand; without either there is none.
pub proof fn law_selection_menu_is_known(lines: Seq<Seq<char>>, i: int, j: int)
    requires
        0 <= i < lines.len(),
        0 <= j < lines.len(),
    ensures
        selection_footer(trimmed(lines[i])) && numbered(lines[j]) ==> selection_screen(lines),
        (forall|k: int|
            0 <= k < lines.len() ==> !selection_footer(trimmed(#[trigger] lines[k])))
            ==> !selection_screen(lines),
        (forall|k: int| 0 <= k < lines.len() ==> !numbered(#[trigger] lines[k]))
            ==> !selection_screen(lines),
{
}

/// The footer of a menu tells how to select, or how to move and to leave.
pub proof fn law_menu_footer_is_known(a: Seq<char>, b: Seq<char>, c: Seq<char>, t: Seq<char>)
    ensures
        selection_footer(a + "Enter to select"@ + b),
        selection_footer(a + "to navigate"@ + b + "to cancel"@ + c),
        !occurs(t, "Enter to select"@) && !occurs(t, "to navigate"@) ==> !selection_footer(t),
        !occurs(t, "Enter to select"@) && !occurs(t, "to cancel"@) ==> !selection_footer(t),
{
    lemma_occurs_in(a, "Enter to select"@, b);
    let t = a + "to navigate"@ + b + "to cancel"@ + c;
    assert(t =~= a + "to navigate"@ + (b + "to cancel"@ + c));
    lemma_occurs_in(a, "to navigate"@, b + "to cancel"@ + c);
    assert(t =~= (a + "to navigate"@ + b) + "to cancel"@ + c);
    lemma_occurs_in(a + "to navigate"@ + b, "to cancel"@, c);
}

/// An option is a line that starts with a digit and a dot.
pub proof fn law_numbered_option_is_known(digit: char, rest: Seq<char>)
    ensures
        '0' <= digit <= '9' ==> numbered(seq![digit, '.'] + rest),
        digit != '❯' && !is_space(digit) && !('0' <= digit <= '9') ==> !numbered(
            seq![digit, '.'] + rest,
        ),
        digit != '❯' && !is_space(digit) ==> !numbered(seq![digit]),
        '0' <= digit <= '9' && rest.len() > 0 && rest[0] != '.' ==> !numbered(seq![digit] + rest),
{
    let t = seq![digit, '.'] + rest;
    assert(t[0] == digit && t[1] == '.');
    assert(trim_start(t) == t || is_space(digit));
    let u = seq![digit] + rest;
    assert(u[0] == digit);
    if rest.len() > 0 {
        assert(u[1] == rest[0]);
    }
}

/// A permission prompt offers a yes with a no, or with a question; without the
/// yes it is none, nor with the yes alone.
pub proof fn law_permission_prompt_is_known(
    a: Seq<char>,
    b: Seq<char>,
    c: Seq<char>,
    t: Seq<char>,
)
    ensures
        prompt_text(a + "1. yes"@ + b + "2. no"@ + c),
        prompt_text(a + "1. yes"@ + b + "3. no"@ + c),
        prompt_text(a + "do you want to"@ + b + "1. yes"@ + c),
        !occurs(t, "1. yes"@) && !occurs(t, "1.yes"@) ==> !prompt_text(t),
        !asking(t) && !occurs(t, "2. no"@) && !occurs(t, "3. no"@) && !occurs(t, "2.no"@)
            && !occurs(t, "3.no"@) ==> !prompt_text(t),
{
    lemma_two_occur(a, "1. yes"@, b, "2. no"@, c);
    lemma_two_occur(a, "1. yes"@, b, "3. no"@, c);
    lemma_two_occur(a, "do you want to"@, b, "1. yes"@, c);
}

proof fn lemma_two_occur(a: Seq<char>, x: Seq<char>, b: Seq<char>, y: Seq<char>, c: Seq<char>)
    ensures
        occurs(a + x + b + y + c, x),
        occurs(a + x + b + y + c, y),
{
    let t = a + x + b + y + c;
    assert(t =~= a + x + (b + y + c));
    lemma_occurs_in(a, x, b + y + c);
    lemma_occurs_in(a + x + b, y, c);
}

/// A permission menu that was put to the user counts as told, and as something
/// that the turn brought.
pub proof fn law_put_menu_counts_as_told(m: PollModel, menu: Seq<char>, id: Seq<char>)
    ensures
        on_permission_menu(m, menu, id).0.seen.contains(menu),
        !m.seen.contains(menu) ==> on_permission_menu(m, menu, id).0.had_content,
        on_permission_menu(on_permission_menu(m, menu, id).0, menu, id).1.len() == 0,
        on_permission_menu(m, menu, id).0.saw_busy == m.saw_busy,
{
    if !m.seen.contains(menu) {
        assert(m.seen.push(menu)[m.seen.len() as int] == menu);
    }
}

/// While the program works there is a sign of life from time to time: where
/// hooks report, a bare one; otherwise the status on the screen, where it is
/// another than the last time. A turn that was seen at work has something to end.
pub proof fn law_work_gives_signs_of_life(m: PollModel, lines: Seq<Seq<char>>)
    requires
        m.busy_ticks < HEARTBEAT_TICKS,
    ensures
        ({
            let (after, told) = on_busy(m, lines);
            let due = m.busy_ticks + 1 == HEARTBEAT_TICKS;
            &&& after.saw_busy && after.had_content
            &&& !due ==> told.len() == 0 && after.busy_ticks == m.busy_ticks + 1
                && after.last_heartbeat == m.last_heartbeat
            &&& due ==> after.busy_ticks == 0
            &&& due && m.hook_relay ==> told.len() == 1 && told[0] == Told::Keepalive
            &&& due && !m.hook_relay && status_line(lines) != m.last_heartbeat ==> told.len() == 1
                && told[0] == (Told::Thinking { content: status_line(lines) })
                && after.last_heartbeat == status_line(lines)
            &&& due && !m.hook_relay && status_line(lines) == m.last_heartbeat ==> told.len() == 0
            &&& after.seen == m.seen
        }),
{
}

/// The status is what stands on a line of the screen that looks like one, the
/// lowest of them; a word where none does.
pub proof fn law_status_stands_on_the_screen(lines: Seq<Seq<char>>, i: int)
    requires
        0 <= i < lines.len(),
    ensures
        done_footer(trimmed(lines[i])) && (forall|k: int|
            i < k < lines.len() ==> !done_footer(trimmed(#[trigger] lines[k]))) ==> status_line(
            lines,
        ) == trimmed(lines[i]),
        (forall|k: int| 0 <= k < lines.len() ==> !done_footer(trimmed(#[trigger] lines[k])))
            ==> status_line(lines) == "Working…"@,
    decreases lines.len(),
{
    let front = lines.drop_last();
    assert forall|k: int| 0 <= k < front.len() implies #[trigger] front[k] == lines[k] by {}
    if i < front.len() {
        law_status_stands_on_the_screen(front, i);
        assert(front[i] == lines[i]);
    } else if front.len() > 0 {
        law_status_stands_on_the_screen(front, 0);
    }
    assert(lines[lines.len() - 1] == lines.last());
}

/// A screen that shows the same again is counted as still, one that shows
/// something else is not; white space at the ends of lines is not seen.
pub proof fn law_still_screen_is_counted(m: PollModel, lines: Seq<Seq<char>>)
    requires
        m.stable_ticks < u32::MAX,
    ensures
        steadied(m, lines).prev_screen == Some(settled_lines(lines)),
        m.prev_screen == Some(settled_lines(lines)) ==> steadied(m, lines).stable_ticks
            == m.stable_ticks + 1,
        m.prev_screen != Some(settled_lines(lines)) ==> steadied(m, lines).stable_ticks == 0,
        steadied(m, lines).busy_ticks == 0 && steadied(m, lines).seen == m.seen,
        steadied(m, lines).saw_busy == m.saw_busy && steadied(m, lines).had_content
            == m.had_content,
{
}

/// The input box is known by its mark, on whatever line it stands.
pub proof fn law_input_box_is_known(lines: Seq<Seq<char>>, i: int)
    requires
        0 <= i < lines.len(),
    ensures
        "❯"@.is_prefix_of(trim_start(lines[i])) ==> input_box(lines),
        (forall|k: int|
            0 <= k < lines.len() ==> !"❯"@.is_prefix_of(trim_start(#[trigger] lines[k])))
            ==> !input_box(lines),
{
}

/// What is on the screen is told in this order: a permission menu before all
/// else, then a menu to select from; a screen that is at work is not read for
/// replies.
pub proof fn law_menus_come_first(m: PollModel, lines: Seq<Seq<char>>, id: Seq<char>, i: int)
    requires
        0 <= i < on_screen(m, lines, id).1.len(),
    ensures
        ({
            let told = on_screen(m, lines, id).1[i];
            let asks = permission_prompt(joined(lines, "\n"@));
            &&& told is PermissionRequest <==> asks
            &&& told is Text ==> !asks && (selection_screen(lines) || !busy_screen(lines))
        }),
{
    if !permission_prompt(joined(lines, "\n"@)) && !selection_screen(lines) && !busy_screen(lines) {
        lemma_new_texts_are_texts(m.seen, reply_blocks(lines));
    }
}

proof fn lemma_new_texts_are_texts(seen: Seq<Seq<char>>, items: Seq<Seq<char>>)
    ensures
        forall|i: int|
            0 <= i < new_texts(seen, items).len() ==> (#[trigger] new_texts(seen, items)[i])
                is Text,
    decreases items.len(),
{
    if items.len() > 0 {
        let rest = items.skip(1);
        lemma_new_texts_are_texts(seen, rest);
        lemma_new_texts_are_texts(seen.push(items[0]), rest);
    }
}

/// A menu to select from is told as it is, once, and ends the turn.
pub proof fn law_selection_menu_is_told(m: PollModel, menu: Seq<char>)
    ensures
        ({
            let (after, told) = on_selection_menu(m, menu);
            &&& menu.len() > 0 && !m.seen.contains(menu) ==> told.len() == 2 && told[0] == (
            Told::Text { content: menu }) && told[1] == turn_end()
            &&& menu.len() > 0 ==> on_selection_menu(after, menu).1.len() == 0
            &&& menu.len() == 0 || m.seen.contains(menu) ==> told.len() == 0 && after == m
            &&& told.len() > 0 ==> !after.saw_busy && !after.had_content
        }),
{
    if !m.seen.contains(menu) {
        assert(m.seen.push(menu)[m.seen.len() as int] == menu);
    }
}

/// The border of an input box is a long line of dashes and nothing else.
pub proof fn law_border_is_a_line(n: nat, line: Seq<char>)
    ensures
        n > 20 ==> box_border(Seq::new(n, |i: int| '─')),
        box_border(line) ==> trimmed(line).len() > 20,
        (exists|i: int| 0 <= i < trimmed(line).len() && #[trigger] trimmed(line)[i] != '─')
            ==> !box_border(line),
{
    let s = Seq::new(n, |i: int| '─');
    if n > 20 {
        let (a, b) = law_trimmed_stands_in_the_text(s);
        if a.len() > 0 {
            assert(s[0] == a[0]);
        }
        if b.len() > 0 {
            assert(s.last() == b[b.len() - 1]);
        }
        assert(trimmed(s) =~= s);
    }
}

/// Decoration of a menu: rules, and the row of tabs with its boxes.
pub proof fn law_decoration_is_known(t: Seq<char>)
    ensures
        t.contains('☐') || t.contains('☑') || occurs(t, "Submit"@) || is_rule(t) ==> is_chrome(t),
        !t.contains('☐') && !t.contains('☑') && !occurs(t, "Submit"@) && !is_rule(t)
            ==> !is_chrome(t),
        "type something"@.is_prefix_of(t) || "chat about this"@.is_prefix_of(t) ==> meta_text(t),
        !"type something"@.is_prefix_of(t) && !"chat about this"@.is_prefix_of(t)
            ==> !meta_text(t),
{
}

} // verus!
