//! The texts in which a turn shows its work: labels of tool calls, the progress
//! message that lists them, and long text cut into segments.

use crate::text::{
    clip, clipped, decimal, decimal_of, digit, join, joined, law_replacing_a_character,
    lemma_joined_split, lemma_texts_push, prefix, replace, replaced, split, take, texts, trim,
    trimmed,
};
use vstd::prelude::*;
use vstd::string::*;

verus! {

// ---------------------------------------------------------------------------
// Tool progress
// ---------------------------------------------------------------------------

/// The label of a tool call in the progress list: its name, and its input cut
/// to `max` characters on one line.
pub open spec fn tool_label(tool: Seq<char>, input: Seq<char>, max: nat) -> Seq<char> {
    if trimmed(input).len() == 0 {
        tool
    } else {
        tool + ": "@ + replaced(clipped(trimmed(input), max, "…"@), "\n"@, " "@)
    }
}

/// A compact label for one tool call, e.g. `Bash: ls -la`. The cut is made
/// between characters.
pub fn format_tool_label(tool: &str, input: &str, max: usize) -> (r: String)
    ensures
        r@ == tool_label(tool@, input@, max as nat),
{
    let input: &str = trim(input);
    if input.is_empty() {
        return tool.to_owned();
    }
    let shown: String = clip(input, max, "…");
    proof {
        reveal_strlit("\n");
    }
    let line: String = replace(shown.as_str(), "\n", " ");
    let mut r: String = tool.to_owned();
    r.append(": ");
    r.append(line.as_str());
    r
}

/// How many tools the progress message shows.
pub const MAX_SHOWN: usize = 8;

/// The index of the first tool that is shown: all but the last eight are left
/// out.
pub open spec fn first_shown(n: nat) -> nat {
    if n > MAX_SHOWN {
        (n - MAX_SHOWN) as nat
    } else {
        0
    }
}

/// The line of the tool at index `i` of `n`.
pub open spec fn progress_line(tools: Seq<Seq<char>>, done: bool, i: int) -> Seq<char> {
    (if !done && i + 1 == tools.len() {
        "▸"@
    } else {
        "✓"@
    }) + " "@ + decimal((i + 1) as nat) + ". "@ + tools[i]
}

/// The first line: how many steps there are, and whether they are done.
pub open spec fn progress_header(n: nat, done: bool) -> Seq<char> {
    (if done {
        "✓ 完成 ("@
    } else {
        "⚡ 处理中… ("@
    }) + decimal(n) + " 步)"@
}

/// The lines above the tools.
pub open spec fn progress_head(n: nat, done: bool) -> Seq<Seq<char>> {
    if first_shown(n) > 0 {
        seq![progress_header(n, done), "…(前 "@ + decimal(first_shown(n)) + " 步省略)"@]
    } else {
        seq![progress_header(n, done)]
    }
}

/// The lines of the progress message for some tools.
pub open spec fn progress_lines(tools: Seq<Seq<char>>, done: bool) -> Seq<Seq<char>> {
    let start = first_shown(tools.len());
    progress_head(tools.len(), done) + Seq::new(
        (tools.len() - start) as nat,
        |i: int| progress_line(tools, done, start + i),
    )
}

/// The progress message for a list of tools.
pub open spec fn progress(tools: Seq<Seq<char>>, done: bool) -> Seq<char> {
    if tools.len() == 0 {
        if done {
            "✓ 完成"@
        } else {
            "⚡ 处理中…"@
        }
    } else {
        joined(progress_lines(tools, done), "\n"@)
    }
}

/// Renders the running tool list into one message: while the turn is live the
/// last tool is marked as current, and once it is done every tool is marked
/// done.
pub fn render_progress(tools: &Vec<String>, done: bool) -> (r: String)
    ensures
        r@ == progress(texts(tools@), done),
{
    let n: usize = tools.len();
    if n == 0 {
        return if done {
            "✓ 完成".to_owned()
        } else {
            "⚡ 处理中…".to_owned()
        };
    }
    let ghost all = texts(tools@);
    let mut header: String = if done {
        "✓ 完成 (".to_owned()
    } else {
        "⚡ 处理中… (".to_owned()
    };
    let count: String = decimal_of(n as u64);
    header.append(count.as_str());
    header.append(" 步)");
    let mut lines: Vec<String> = Vec::new();
    lines.push(header);
    let start: usize = if n > MAX_SHOWN {
        n - MAX_SHOWN
    } else {
        0
    };
    if start > 0 {
        let mut elided: String = "…(前 ".to_owned();
        let before: String = decimal_of(start as u64);
        elided.append(before.as_str());
        elided.append(" 步省略)");
        lines.push(elided);
    }
    let ghost head = progress_head(all.len(), done);
    let ghost shown = Seq::new(
        (all.len() - first_shown(all.len())) as nat,
        |i: int| progress_line(all, done, first_shown(all.len()) + i),
    );
    assert(texts(lines@) =~= head + shown.take(0));
    let mut i: usize = start;
    while i < n
        invariant
            start <= i <= n,
            n == tools.len(),
            start == first_shown(all.len()),
            all == texts(tools@),
            shown == Seq::new(
                (all.len() - first_shown(all.len())) as nat,
                |i: int| progress_line(all, done, first_shown(all.len()) + i),
            ),
            texts(lines@) == head + shown.take(i - start),
        decreases n - i,
    {
        let mut line: String = if !done && i + 1 == n {
            "▸".to_owned()
        } else {
            "✓".to_owned()
        };
        line.append(" ");
        let number: String = decimal_of(i as u64 + 1);
        line.append(number.as_str());
        line.append(". ");
        line.append(tools[i].as_str());
        proof {
            assert(all[i as int] == tools[i as int]@);
            assert(line@ == progress_line(all, done, i as int));
            assert(shown[i - start] == line@);
            lemma_texts_push(lines@, line);
            assert((head + shown.take(i - start)).push(line@) =~= head + shown.take(
                i - start + 1,
            ));
        }
        lines.push(line);
        i += 1;
    }
    assert(shown.take(n - start) =~= shown);
    join(&lines, "\n")
}

// ---------------------------------------------------------------------------
// Cutting long text
// ---------------------------------------------------------------------------

/// `s` in pieces of `n` characters, the last one shorter.
pub open spec fn chunks(s: Seq<char>, n: nat) -> Seq<Seq<char>>
    decreases s.len(),
{
    if s.len() == 0 || n == 0 {
        Seq::empty()
    } else {
        seq![prefix(s, n)] + chunks(
            if s.len() <= n {
                Seq::empty()
            } else {
                s.skip(n as int)
            },
            n,
        )
    }
}

/// The segments of a text: itself where it is short enough, otherwise pieces
/// of `max` characters (of one, for a `max` of 0).
pub open spec fn segments(s: Seq<char>, max: nat) -> Seq<Seq<char>> {
    if s.len() <= max {
        seq![s]
    } else {
        chunks(
            s,
            if max == 0 {
                1
            } else {
                max
            },
        )
    }
}

/// Splits `s` into segments of at most `max` characters, never inside one.
pub fn split_chars(s: &str, max: usize) -> (r: Vec<String>)
    ensures
        texts(r@) == segments(s@, max as nat),
{
    let n: usize = s.unicode_len();
    let mut r: Vec<String> = Vec::new();
    if n <= max {
        let whole: String = s.to_owned();
        proof {
            lemma_texts_push(r@, whole);
        }
        r.push(whole);
        assert(texts(r@) =~= seq![s@]);
        return r;
    }
    let step: usize = if max == 0 {
        1
    } else {
        max
    };
    let mut i: usize = 0;
    assert(s@.skip(0) =~= s@);
    assert(texts(r@) + chunks(s@, step as nat) =~= chunks(s@, step as nat));
    while i < n
        invariant
            i <= n,
            n == s@.len(),
            step > 0,
            chunks(s@, step as nat) == texts(r@) + chunks(s@.skip(i as int), step as nat),
        decreases n - i,
    {
        let ghost rest = s@.skip(i as int);
        let end: usize = if n - i <= step {
            n
        } else {
            i + step
        };
        let piece: String = s.substring_char(i, end).to_owned();
        proof {
            lemma_texts_push(r@, piece);
            assert(piece@ =~= prefix(rest, step as nat));
            let left = if rest.len() <= step {
                Seq::empty()
            } else {
                rest.skip(step as int)
            };
            assert(left =~= s@.skip(end as int));
            assert(texts(r@) + (seq![piece@] + chunks(left, step as nat)) =~= texts(r@).push(
                piece@,
            ) + chunks(left, step as nat));
        }
        r.push(piece);
        i = end;
    }
    assert(s@.skip(n as int) =~= Seq::empty());
    assert(texts(r@) + Seq::<Seq<char>>::empty() =~= texts(r@));
    r
}

proof fn lemma_chunks_whole(s: Seq<char>, n: nat)
    requires
        n > 0,
    ensures
        chunks(s, n).flatten() == s,
        forall|i: int| 0 <= i < chunks(s, n).len() ==> 0 < (#[trigger] chunks(s, n)[i]).len() <= n,
        s.len() > 0 ==> chunks(s, n).len() > 0,
    decreases s.len(),
{
    if s.len() == 0 {
        assert(chunks(s, n).flatten() =~= s);
    } else {
        let rest = if s.len() <= n {
            Seq::empty()
        } else {
            s.skip(n as int)
        };
        lemma_chunks_whole(rest, n);
        let tail = chunks(rest, n);
        let all = chunks(s, n);
        assert(all.first() == prefix(s, n));
        assert(all.drop_first() =~= tail);
        assert(all.flatten() == prefix(s, n) + tail.flatten());
        assert(prefix(s, n) + rest =~= s);
        assert forall|i: int| 0 <= i < all.len() implies 0 < (#[trigger] all[i]).len() <= n by {
            if i > 0 {
                assert(all[i] == tail[i - 1]);
            }
        }
    }
}

/// Nothing is lost: the segments of a text, one behind the other, are the
/// text; there is at least one, and none is longer than `max`.
pub proof fn law_segments_are_the_text(s: Seq<char>, max: nat)
    requires
        max > 0,
    ensures
        segments(s, max).flatten() == s,
        segments(s, max).len() > 0,
        forall|i: int| 0 <= i < segments(s, max).len() ==> (#[trigger] segments(s, max)[i]).len()
            <= max,
{
    if s.len() <= max {
        seq![s].lemma_flatten_one_element();
    } else {
        lemma_chunks_whole(s, max);
    }
}

/// Whether a text stands on one line.
pub open spec fn one_line(s: Seq<char>) -> bool {
    !s.contains('\n')
}

proof fn lemma_one_line_concat(a: Seq<char>, b: Seq<char>)
    requires
        one_line(a),
        one_line(b),
    ensures
        one_line(a + b),
{
    assert forall|i: int| 0 <= i < (a + b).len() implies (a + b)[i] != '\n' by {
        if i < a.len() {
            assert(a.contains(a[i]));
        } else {
            assert(b.contains(b[i - a.len()]));
        }
    }
}

proof fn lemma_decimal_on_one_line(n: nat)
    ensures
        one_line(decimal(n)),
    decreases n,
{
    if n >= 10 {
        lemma_decimal_on_one_line(n / 10);
        lemma_one_line_concat(decimal(n / 10), seq![digit(n % 10)]);
        assert(decimal(n) =~= decimal(n / 10) + seq![digit(n % 10)]);
    }
}

proof fn lemma_progress_line(tools: Seq<Seq<char>>, done: bool, i: int)
    requires
        0 <= i < tools.len(),
        one_line(tools[i]),
    ensures
        one_line(progress_line(tools, done, i)),
{
    reveal_strlit("▸");
    reveal_strlit("✓");
    reveal_strlit(" ");
    reveal_strlit(". ");
    let mark = if !done && i + 1 == tools.len() {
        "▸"@
    } else {
        "✓"@
    };
    let number = decimal((i + 1) as nat);
    lemma_decimal_on_one_line((i + 1) as nat);
    lemma_one_line_concat(mark, " "@);
    lemma_one_line_concat(mark + " "@, number);
    lemma_one_line_concat(mark + " "@ + number, ". "@);
    lemma_one_line_concat(mark + " "@ + number + ". "@, tools[i]);
}

proof fn lemma_progress_head(n: nat, done: bool)
    ensures
        forall|i: int|
            0 <= i < progress_head(n, done).len() ==> one_line(#[trigger] progress_head(n, done)[i]),
{
    reveal_strlit("✓ 完成 (");
    reveal_strlit("⚡ 处理中… (");
    reveal_strlit(" 步)");
    reveal_strlit("…(前 ");
    reveal_strlit(" 步省略)");
    let start = if done {
        "✓ 完成 ("@
    } else {
        "⚡ 处理中… ("@
    };
    let left_out = decimal(first_shown(n));
    lemma_decimal_on_one_line(n);
    lemma_decimal_on_one_line(first_shown(n));
    lemma_one_line_concat(start, decimal(n));
    lemma_one_line_concat(start + decimal(n), " 步)"@);
    lemma_one_line_concat("…(前 "@, left_out);
    lemma_one_line_concat("…(前 "@ + left_out, " 步省略)"@);
}

/// The lines of a progress message are those that it is made of.
proof fn lemma_progress_lines(tools: Seq<Seq<char>>, done: bool)
    requires
        tools.len() > 0,
        forall|i: int| 0 <= i < tools.len() ==> one_line(#[trigger] tools[i]),
    ensures
        split(progress(tools, done), '\n') == progress_lines(tools, done),
{
    let all = progress_lines(tools, done);
    let head = progress_head(tools.len(), done);
    lemma_progress_head(tools.len(), done);
    assert forall|i: int| 0 <= i < all.len() implies !(#[trigger] all[i]).contains('\n') by {
        if i < head.len() {
            assert(one_line(head[i]));
        } else {
            let k = first_shown(tools.len()) + (i - head.len());
            lemma_progress_line(tools, done, k);
            assert(all[i] == progress_line(tools, done, k));
        }
    }
    reveal_strlit("\n");
    assert("\n"@ =~= seq!['\n']);
    lemma_joined_split(all, '\n');
}

/// The live and the finished progress message have the same lines: a header,
/// one line for what is left out where there is more than is shown, and a line
/// for each tool that is shown. They differ in the header and in the mark of
/// the last tool alone; every other tool is marked done in both.
pub proof fn law_progress_settles_in_place(tools: Seq<Seq<char>>)
    requires
        tools.len() > 0,
        forall|i: int| 0 <= i < tools.len() ==> one_line(#[trigger] tools[i]),
    ensures
        ({
            let n = tools.len();
            let shown = (n - first_shown(n)) as int;
            let live = split(progress(tools, false), '\n');
            let done = split(progress(tools, true), '\n');
            let last = " "@ + decimal(n) + ". "@ + tools.last();
            &&& shown == if n > 8 {
                8
            } else {
                n as int
            }
            &&& live.len() == done.len()
            &&& done.len() == 1 + shown + if n > 8 {
                1int
            } else {
                0
            }
            &&& live[0] == "⚡ 处理中… ("@ + decimal(n) + " 步)"@
            &&& done[0] == "✓ 完成 ("@ + decimal(n) + " 步)"@
            &&& live.last() == "▸"@ + last
            &&& done.last() == "✓"@ + last
            &&& forall|k: int| 0 < k < live.len() - 1 ==> live[k] == done[k]
            &&& forall|k: int|
                done.len() - shown <= k < done.len() ==> "✓"@.is_prefix_of(#[trigger] done[k])
        }),
{
    let n = tools.len();
    let shown = (n - first_shown(n)) as int;
    lemma_progress_lines(tools, false);
    lemma_progress_lines(tools, true);
    let live = progress_lines(tools, false);
    let done = progress_lines(tools, true);
    let skipped = done.len() - shown;
    assert(live.last() == progress_line(tools, false, n - 1));
    assert(done.last() == progress_line(tools, true, n - 1));
    let last = " "@ + decimal(n) + ". "@ + tools.last();
    assert(live.last() =~= "▸"@ + last);
    assert(done.last() =~= "✓"@ + last);
    assert forall|k: int| 0 < k < live.len() - 1 implies live[k] == done[k] by {
        if k >= skipped {
            let i = first_shown(n) + (k - skipped);
            assert(live[k] == progress_line(tools, false, i));
            assert(done[k] == progress_line(tools, true, i));
        }
    }
    assert forall|k: int| skipped <= k < done.len() implies "✓"@.is_prefix_of(
        #[trigger] done[k],
    ) by {
        let i = first_shown(n) + (k - skipped);
        assert(done[k] == progress_line(tools, true, i));
        assert(done[k].take("✓"@.len() as int) =~= "✓"@);
    }
}

/// The label of a call names the tool, and with it the input on one line, as far
/// as the limit goes.
pub proof fn law_label_names_the_call(tool: Seq<char>, input: Seq<char>, max: nat)
    ensures
        tool.is_prefix_of(tool_label(tool, input, max)),
        trimmed(input).len() == 0 ==> tool_label(tool, input, max) == tool,
        0 < trimmed(input).len() <= max && one_line(trimmed(input)) ==> tool_label(tool, input, max)
            == tool + ": "@ + trimmed(input),
        one_line(tool) ==> one_line(tool_label(tool, input, max)),
        tool_label(tool, input, max).len() <= tool.len() + 3 + max,
{
    reveal_strlit(": ");
    reveal_strlit("…");
    reveal_strlit("\n");
    reveal_strlit(" ");
    assert("\n"@ =~= seq!['\n']);
    assert(" "@ =~= seq![' ']);
    let t = trimmed(input);
    let c = clipped(t, max, "…"@);
    let shown = replaced(c, "\n"@, " "@);
    law_replacing_a_character(c, '\n', ' ');
    let label = tool_label(tool, input, max);
    assert(tool =~= label.take(tool.len() as int));
    if t.len() > 0 {
        assert(one_line(shown)) by {
            assert forall|i: int| 0 <= i < shown.len() implies shown[i] != '\n' by {}
        }
        lemma_one_line_concat(": "@, shown);
        assert(label =~= tool + (": "@ + shown));
        if one_line(tool) {
            lemma_one_line_concat(tool, ": "@ + shown);
        }
        if t.len() <= max && one_line(t) {
            assert forall|i: int| 0 <= i < t.len() implies shown[i] == t[i] by {
                assert(t.contains(t[i]));
            }
            assert(shown =~= t);
        }
    }
}

} // verus!
