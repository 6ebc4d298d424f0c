//! Long messages in chunks that a platform takes.

use crate::text::chars_of;
use vstd::prelude::*;
use vstd::string::*;

verus! {

/// One more than the index of the last line feed among the first `n`
/// characters; 0 where there is none.
pub open spec fn after_last_newline(s: Seq<char>, n: int) -> int
    decreases n,
{
    if n <= 0 {
        0
    } else if s[n - 1] == '\n' {
        n
    } else {
        after_last_newline(s, n - 1)
    }
}

/// Where a text that is over the limit is cut: behind the last line feed
/// within the limit, else at the limit.
pub open spec fn cut_point(s: Seq<char>, max: int) -> int {
    if after_last_newline(s, max) > 0 {
        after_last_newline(s, max)
    } else {
        max
    }
}

/// A text in chunks of at most `max` characters; one whole chunk where `max`
/// allows none.
pub open spec fn chunks(s: Seq<char>, max: int) -> Seq<Seq<char>>
    decreases s.len(),
{
    let cut = cut_point(s, max);
    if s.len() <= max || cut <= 0 || cut > s.len() {
        seq![s]
    } else {
        seq![s.take(cut)] + chunks(s.skip(cut), max)
    }
}

proof fn lemma_cut_point(s: Seq<char>, max: int)
    requires
        0 <= max,
    ensures
        0 <= after_last_newline(s, max) <= max,
        0 <= cut_point(s, max) <= max,
        max > 0 ==> cut_point(s, max) > 0,
    decreases max,
{
    if max > 0 && s[max - 1] != '\n' {
        lemma_cut_point(s, max - 1);
    }
}

/// The characters of each text in a list.
pub open spec fn strs(v: Seq<&str>) -> Seq<Seq<char>> {
    v.map_values(|s: &str| s@)
}

/// The chunks of a text, as parts of it.
pub fn chunked<'a>(s: &'a str, max: usize) -> (r: Vec<&'a str>)
    ensures
        strs(r@) == chunks(s@, max as int),
{
    let v: Vec<char> = chars_of(s);
    let mut r: Vec<&'a str> = Vec::new();
    let mut start: usize = 0;
    assert(s@.skip(0) =~= s@);
    assert(strs(r@) + chunks(s@, max as int) =~= chunks(s@, max as int));
    while max > 0 && v.len() - start > max
        invariant
            start <= v.len(),
            v@ == s@,
            chunks(s@, max as int) == strs(r@) + chunks(s@.skip(start as int), max as int),
        decreases v.len() - start,
    {
        let ghost rest = s@.skip(start as int);
        proof {
            lemma_cut_point(rest, max as int);
        }
        let mut cut: usize = max;
        while cut > 0 && v[start + cut - 1] != '\n'
            invariant
                cut <= max,
                max < v.len() - start,
                start <= v.len(),
                v@ == s@,
                rest == s@.skip(start as int),
                after_last_newline(rest, max as int) == after_last_newline(rest, cut as int),
            decreases cut,
        {
            assert(rest[cut - 1] == v@[start + cut - 1]);
            cut -= 1;
        }
        if cut > 0 {
            assert(rest[cut - 1] == v@[start + cut - 1]);
        } else {
            cut = max;
        }
        assert(cut == cut_point(rest, max as int));
        let part: &'a str = s.substring_char(start, start + cut);
        proof {
            assert(part@ =~= rest.take(cut as int));
            assert(rest.skip(cut as int) =~= s@.skip(start + cut));
            assert(strs(r@.push(part)) =~= strs(r@).push(part@));
            let more = chunks(s@.skip(start + cut), max as int);
            assert(strs(r@) + (seq![part@] + more) =~= strs(r@).push(part@) + more);
        }
        r.push(part);
        start = start + cut;
    }
    let last: &'a str = s.substring_char(start, v.len());
    proof {
        lemma_cut_point(s@.skip(start as int), max as int);
        assert(last@ =~= s@.skip(start as int));
        assert(strs(r@.push(last)) =~= strs(r@).push(last@));
        assert(strs(r@) + seq![last@] =~= strs(r@).push(last@));
    }
    r.push(last);
    r
}

// ---------------------------------------------------------------------------
// Laws
// ---------------------------------------------------------------------------

/// The chunks of a text, one behind the other, are the text.
pub proof fn law_chunks_are_the_text(s: Seq<char>, max: int)
    ensures
        chunks(s, max).flatten() == s,
    decreases s.len(),
{
    let cut = cut_point(s, max);
    if s.len() <= max || cut <= 0 || cut > s.len() {
        seq![s].lemma_flatten_one_element();
    } else {
        let rest = chunks(s.skip(cut), max);
        law_chunks_are_the_text(s.skip(cut), max);
        let all = seq![s.take(cut)] + rest;
        assert(all.drop_first() =~= rest);
        assert(all.first() == s.take(cut));
        assert(s.take(cut) + s.skip(cut) =~= s);
    }
}

/// Every chunk is within the limit, and none is empty where the text is not.
pub proof fn law_chunks_are_within_the_limit(s: Seq<char>, max: int)
    requires
        max > 0,
    ensures
        forall|k: int| 0 <= k < chunks(s, max).len() ==> (#[trigger] chunks(s, max)[k]).len()
            <= max,
        s.len() > 0 ==> forall|k: int|
            0 <= k < chunks(s, max).len() ==> (#[trigger] chunks(s, max)[k]).len() > 0,
    decreases s.len(),
{
    lemma_cut_point(s, max);
    let cut = cut_point(s, max);
    if s.len() > max {
        let t = s.skip(cut);
        law_chunks_are_within_the_limit(t, max);
        let all = chunks(s, max);
        assert forall|k: int| 0 <= k < all.len() implies 0 < (#[trigger] all[k]).len() <= max by {
            if k > 0 {
                assert(all[k] == chunks(t, max)[k - 1]);
            }
        }
    }
}

/// A text within the limit is one chunk.
pub proof fn law_short_text_is_one_chunk(s: Seq<char>, max: int)
    requires
        s.len() <= max,
    ensures
        chunks(s, max) == seq![s],
{
}

/// A chunk ends with a line where one ends within the limit, with the last one
/// that does, and at the limit otherwise; behind it the text goes on.
pub proof fn law_chunks_end_with_a_line(s: Seq<char>, max: int)
    requires
        0 < max < s.len(),
    ensures
        ({
            let first = chunks(s, max)[0];
            &&& first.is_prefix_of(s)
            &&& 0 < first.len() <= max
            &&& first.len() == max || first.last() == '\n'
            &&& forall|k: int| first.len() <= k < max ==> #[trigger] s[k] != '\n'
            &&& first.last() != '\n' ==> forall|k: int| 0 <= k < max ==> #[trigger] s[k] != '\n'
            &&& chunks(s, max).skip(1) == chunks(s.skip(first.len() as int), max)
        }),
{
    lemma_cut_point(s, max);
    lemma_last_newline(s, max);
    let cut = cut_point(s, max);
    let first = chunks(s, max)[0];
    assert(first == s.take(cut));
    assert(chunks(s, max).skip(1) =~= chunks(s.skip(cut), max));
}

proof fn lemma_last_newline(s: Seq<char>, n: int)
    requires
        0 <= n <= s.len(),
    ensures
        0 <= after_last_newline(s, n) <= n,
        after_last_newline(s, n) > 0 ==> s[after_last_newline(s, n) - 1] == '\n',
        forall|k: int| after_last_newline(s, n) <= k < n ==> #[trigger] s[k] != '\n',
    decreases n,
{
    if n > 0 && s[n - 1] != '\n' {
        lemma_last_newline(s, n - 1);
    }
}

} // verus!
