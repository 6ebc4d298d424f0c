//! Text as sequences of characters.
//!
//! Every helper here is stated over `Seq<char>`, the view of `str` and
//! `String`: what is trimmed, split, joined or replaced, and how numbers are
//! written out.

use vstd::prelude::*;
use vstd::string::*;

verus! {

/// `String::push` puts one character at the end.
pub assume_specification[ String::push ](s: &mut String, c: char)
    ensures
        final(s)@ == old(s)@.push(c),
;

/// `==` on `str` compares the characters.
#[verifier::external_body]
pub(crate) fn same(a: &str, b: &str) -> (r: bool)
    ensures
        r == (a@ == b@),
{
    a == b
}

/// What `str::to_lowercase` makes of a text.
pub uninterp spec fn lowercased(s: Seq<char>) -> Seq<char>;

/// Whether all characters of a text are ASCII.
pub open spec fn ascii(s: Seq<char>) -> bool {
    forall|i: int| 0 <= i < s.len() ==> #[trigger] s[i] <= '\u{7f}'
}

/// A text with the ASCII letters `A` to `Z` in lowercase.
pub open spec fn ascii_lowered(s: Seq<char>) -> Seq<char> {
    s.map_values(
        |c: char|
            if 'A' <= c <= 'Z' {
                ((c as u32 + 32) as u32) as char
            } else {
                c
            },
    )
}

/// `str::to_lowercase`: its result is named [`lowercased`]. Of an ASCII text it
/// is the text with `A` to `Z` mapped to `a` to `z`.
#[verifier::external_body]
pub(crate) fn to_lower(s: &str) -> (r: String)
    ensures
        r@ == lowercased(s@),
        ascii(s@) ==> r@ == ascii_lowered(s@),
{
    s.to_lowercase()
}

// ---------------------------------------------------------------------------
// Characters
// ---------------------------------------------------------------------------

/// The characters with the Unicode property `White_Space`.
pub open spec fn is_space(c: char) -> bool {
    ||| '\u{9}' <= c <= '\u{d}'
    ||| c == ' '
    ||| c == '\u{85}'
    ||| c == '\u{a0}'
    ||| c == '\u{1680}'
    ||| '\u{2000}' <= c <= '\u{200a}'
    ||| c == '\u{2028}'
    ||| c == '\u{2029}'
    ||| c == '\u{202f}'
    ||| c == '\u{205f}'
    ||| c == '\u{3000}'
}

pub fn whitespace(c: char) -> (r: bool)
    ensures
        r == is_space(c),
{
    ('\u{9}' <= c && c <= '\u{d}') || c == ' ' || c == '\u{85}' || c == '\u{a0}' || c == '\u{1680}'
        || ('\u{2000}' <= c && c <= '\u{200a}') || c == '\u{2028}' || c == '\u{2029}' || c
        == '\u{202f}' || c == '\u{205f}' || c == '\u{3000}'
}

/// Whether a character is a letter or a number to Unicode.
pub uninterp spec fn alphanumeric(c: char) -> bool;

/// `char::is_alphanumeric`, named [`alphanumeric`].
#[verifier::external_body]
pub(crate) fn is_alphanumeric(c: char) -> (r: bool)
    ensures
        r == alphanumeric(c),
{
    c.is_alphanumeric()
}

/// The characters of `s`, one by one.
pub fn chars_of(s: &str) -> (v: Vec<char>)
    ensures
        v@ == s@,
{
    let mut v: Vec<char> = Vec::new();
    for c in it: s.chars()
        invariant
            v@ == s@.take(it.index()),
            it.seq() == s@,
    {
        v.push(c);
    }
    v
}

// ---------------------------------------------------------------------------
// Lists of text
// ---------------------------------------------------------------------------

/// The characters of each text in a list.
pub open spec fn texts(v: Seq<String>) -> Seq<Seq<char>> {
    v.map_values(|s: String| s@)
}

pub proof fn lemma_texts_push(v: Seq<String>, s: String)
    ensures
        texts(v.push(s)) == texts(v).push(s@),
{
    assert(texts(v.push(s)) =~= texts(v).push(s@));
}

/// Whether `v` holds the text `s`.
pub fn holds_text(v: &Vec<String>, s: &str) -> (r: bool)
    ensures
        r == texts(v@).contains(s@),
{
    let mut i: usize = 0;
    while i < v.len()
        invariant
            i <= v.len(),
            forall|k: int| 0 <= k < i ==> texts(v@)[k] != s@,
        decreases v.len() - i,
    {
        if same(v[i].as_str(), s) {
            assert(texts(v@)[i as int] == s@);
            return true;
        }
        i += 1;
    }
    false
}

/// The characters of a text that may be missing.
pub open spec fn text_opt(s: Option<String>) -> Option<Seq<char>> {
    match s {
        Some(x) => Some(x@),
        None => None,
    }
}

pub open spec fn str_opt(s: Option<&str>) -> Option<Seq<char>> {
    match s {
        Some(x) => Some(x@),
        None => None,
    }
}

/// The contents of a list that may be missing.
pub open spec fn list_opt(v: Option<Vec<String>>) -> Option<Seq<Seq<char>>> {
    match v {
        Some(l) => Some(texts(l@)),
        None => None,
    }
}

pub fn clone_opt(s: &Option<String>) -> (r: Option<String>)
    ensures
        text_opt(r) == text_opt(*s),
{
    match s {
        Some(x) => Some(x.clone()),
        None => None,
    }
}

// ---------------------------------------------------------------------------
// Beginnings and ends
// ---------------------------------------------------------------------------

/// The first `n` characters, or all of them where there are fewer.
pub open spec fn prefix(s: Seq<char>, n: nat) -> Seq<char> {
    if s.len() <= n {
        s
    } else {
        s.take(n as int)
    }
}

pub fn take<'a>(s: &'a str, n: usize) -> (r: &'a str)
    ensures
        r@ == prefix(s@, n as nat),
{
    let len: usize = s.unicode_len();
    if len <= n {
        s
    } else {
        s.substring_char(0, n)
    }
}

/// At most `max` characters of `s`, with `mark` behind them where some were
/// cut off.
pub open spec fn clipped(s: Seq<char>, max: nat, mark: Seq<char>) -> Seq<char> {
    if s.len() > max {
        s.take(max as int) + mark
    } else {
        s
    }
}

pub fn clip(s: &str, max: usize, mark: &str) -> (r: String)
    ensures
        r@ == clipped(s@, max as nat, mark@),
{
    let len: usize = s.unicode_len();
    if len > max {
        let mut r: String = s.substring_char(0, max).to_owned();
        r.append(mark);
        r
    } else {
        s.to_owned()
    }
}

pub fn starts_with(s: &str, p: &str) -> (r: bool)
    ensures
        r == p@.is_prefix_of(s@),
{
    let n: usize = s.unicode_len();
    let m: usize = p.unicode_len();
    n >= m && same(s.substring_char(0, m), p)
}

pub fn ends_with(s: &str, p: &str) -> (r: bool)
    ensures
        r == p@.is_suffix_of(s@),
{
    let n: usize = s.unicode_len();
    let m: usize = p.unicode_len();
    n >= m && same(s.substring_char(n - m, n), p)
}

/// What follows the first `n` characters.
pub fn skip<'a>(s: &'a str, n: usize) -> (r: &'a str)
    requires
        n <= s@.len(),
    ensures
        r@ == s@.skip(n as int),
{
    let len: usize = s.unicode_len();
    s.substring_char(n, len)
}

/// `s` without leading white space.
pub open spec fn trim_start(s: Seq<char>) -> Seq<char>
    decreases s.len(),
{
    if s.len() > 0 && is_space(s[0]) {
        trim_start(s.skip(1))
    } else {
        s
    }
}

/// `s` without trailing white space.
pub open spec fn trim_end(s: Seq<char>) -> Seq<char>
    decreases s.len(),
{
    if s.len() > 0 && is_space(s.last()) {
        trim_end(s.drop_last())
    } else {
        s
    }
}

/// `s` without white space at either end.
pub open spec fn trimmed(s: Seq<char>) -> Seq<char> {
    trim_end(trim_start(s))
}

pub proof fn lemma_trim_start(s: Seq<char>, i: int)
    requires
        0 <= i <= s.len(),
        forall|k: int| 0 <= k < i ==> is_space(#[trigger] s[k]),
        i < s.len() ==> !is_space(s[i]),
    ensures
        trim_start(s) == s.skip(i),
    decreases i,
{
    if i > 0 {
        assert(is_space(s[0]));
        let t = s.skip(1);
        assert forall|k: int| 0 <= k < i - 1 implies is_space(#[trigger] t[k]) by {
            assert(t[k] == s[k + 1]);
        }
        lemma_trim_start(t, i - 1);
        assert(t.skip(i - 1) =~= s.skip(i));
    } else {
        assert(s.skip(0) =~= s);
    }
}

proof fn lemma_trim_end(s: Seq<char>, j: int)
    requires
        0 <= j <= s.len(),
        forall|k: int| j <= k < s.len() ==> is_space(#[trigger] s[k]),
        j > 0 ==> !is_space(s[j - 1]),
    ensures
        trim_end(s) == s.take(j),
    decreases s.len(),
{
    if j < s.len() {
        assert(is_space(s[s.len() - 1]));
        let t = s.drop_last();
        assert forall|k: int| j <= k < t.len() implies is_space(#[trigger] t[k]) by {
            assert(t[k] == s[k]);
        }
        lemma_trim_end(t, j);
        assert(t.take(j) =~= s.take(j));
    } else {
        assert(s.take(j) =~= s);
    }
}

pub fn trim<'a>(s: &'a str) -> (r: &'a str)
    ensures
        r@ == trimmed(s@),
{
    let v: Vec<char> = chars_of(s);
    let n: usize = v.len();
    let mut i: usize = 0;
    while i < n && whitespace(v[i])
        invariant
            i <= n,
            n == v@.len(),
            forall|k: int| 0 <= k < i ==> is_space(#[trigger] v@[k]),
        decreases n - i,
    {
        i += 1;
    }
    let mut j: usize = n;
    while i < j && whitespace(v[j - 1])
        invariant
            i <= j <= n,
            n == v@.len(),
            forall|k: int| j <= k < n ==> is_space(#[trigger] v@[k]),
        decreases j,
    {
        j -= 1;
    }
    proof {
        lemma_trim_start(s@, i as int);
        let t = s@.skip(i as int);
        assert forall|k: int| j - i <= k < t.len() implies is_space(#[trigger] t[k]) by {
            assert(t[k] == v@[k + i]);
        }
        if j > i {
            assert(t[j - i - 1] == v@[j - 1]);
        }
        lemma_trim_end(t, j - i);
        assert(t.take(j - i) =~= s@.subrange(i as int, j as int));
    }
    s.substring_char(i, j)
}

/// `s` without leading white space.
pub fn trim_left<'a>(s: &'a str) -> (r: &'a str)
    ensures
        r@ == trim_start(s@),
{
    let v: Vec<char> = chars_of(s);
    let mut i: usize = 0;
    while i < v.len() && whitespace(v[i])
        invariant
            i <= v.len(),
            v@ == s@,
            forall|k: int| 0 <= k < i ==> is_space(#[trigger] v@[k]),
        decreases v.len() - i,
    {
        i += 1;
    }
    proof {
        lemma_trim_start(s@, i as int);
    }
    skip(s, i)
}

/// `s` without trailing white space.
pub fn trim_right<'a>(s: &'a str) -> (r: &'a str)
    ensures
        r@ == trim_end(s@),
{
    let v: Vec<char> = chars_of(s);
    let mut j: usize = v.len();
    while 0 < j && whitespace(v[j - 1])
        invariant
            j <= v.len(),
            v@ == s@,
            forall|k: int| j <= k < v.len() ==> is_space(#[trigger] v@[k]),
        decreases j,
    {
        j -= 1;
    }
    proof {
        lemma_trim_end(s@, j as int);
        assert(s@.subrange(0, j as int) =~= s@.take(j as int));
    }
    s.substring_char(0, j)
}

// ---------------------------------------------------------------------------
// Searching and replacing
// ---------------------------------------------------------------------------

/// Whether `p` stands in `s` from the index `i` on.
pub open spec fn occurs_at(s: Seq<char>, p: Seq<char>, i: int) -> bool {
    0 <= i && i + p.len() <= s.len() && s.subrange(i, i + p.len()) == p
}

/// Whether `p` stands anywhere in `s`.
pub open spec fn occurs(s: Seq<char>, p: Seq<char>) -> bool {
    exists|i: int| #[trigger] occurs_at(s, p, i)
}

fn matches_at(v: &Vec<char>, p: &Vec<char>, i: usize) -> (r: bool)
    requires
        i <= v.len(),
    ensures
        r == occurs_at(v@, p@, i as int),
{
    if v.len() - i < p.len() {
        return false;
    }
    let mut k: usize = 0;
    while k < p.len()
        invariant
            k <= p.len(),
            i + p.len() <= v.len(),
            forall|m: int| 0 <= m < k ==> v@[i + m] == #[trigger] p@[m],
        decreases p.len() - k,
    {
        if v[i + k] != p[k] {
            assert(v@.subrange(i as int, i + p@.len())[k as int] == v@[i + k]);
            return false;
        }
        k += 1;
    }
    assert(v@.subrange(i as int, i + p@.len()) =~= p@);
    true
}

pub fn contains(s: &str, p: &str) -> (r: bool)
    ensures
        r == occurs(s@, p@),
{
    let v: Vec<char> = chars_of(s);
    let w: Vec<char> = chars_of(p);
    let mut i: usize = 0;
    while i <= v.len()
        invariant
            i <= v.len() + 1,
            v@ == s@,
            w@ == p@,
            forall|k: int| 0 <= k < i ==> !#[trigger] occurs_at(s@, p@, k),
        decreases v.len() + 1 - i,
    {
        if matches_at(&v, &w, i) {
            assert(occurs_at(s@, p@, i as int));
            return true;
        }
        if i == v.len() {
            return false;
        }
        i += 1;
    }
    false
}

/// Whether the character `c` stands in `s`.
pub fn contains_char(s: &str, c: char) -> (r: bool)
    ensures
        r == s@.contains(c),
{
    let v: Vec<char> = chars_of(s);
    let mut i: usize = 0;
    while i < v.len()
        invariant
            i <= v.len(),
            v@ == s@,
            forall|k: int| 0 <= k < i ==> v@[k] != c,
        decreases v.len() - i,
    {
        if v[i] == c {
            assert(s@[i as int] == c);
            return true;
        }
        i += 1;
    }
    false
}

/// `s` with every occurrence of `p`, from the left, replaced by `to`.
pub open spec fn replaced(s: Seq<char>, p: Seq<char>, to: Seq<char>) -> Seq<char>
    decreases s.len(),
{
    if p.len() == 0 || s.len() < p.len() {
        s
    } else if occurs_at(s, p, 0) {
        to + replaced(s.skip(p.len() as int), p, to)
    } else {
        seq![s[0]] + replaced(s.skip(1), p, to)
    }
}

pub fn replace(s: &str, p: &str, to: &str) -> (r: String)
    requires
        p@.len() > 0,
    ensures
        r@ == replaced(s@, p@, to@),
{
    let v: Vec<char> = chars_of(s);
    let w: Vec<char> = chars_of(p);
    let mut r: String = String::new();
    let mut i: usize = 0;
    assert(s@.skip(0) =~= s@);
    while i < v.len()
        invariant
            i <= v.len(),
            v@ == s@,
            w@ == p@,
            w@.len() > 0,
            replaced(s@, p@, to@) == r@ + replaced(s@.skip(i as int), p@, to@),
        decreases v.len() - i,
    {
        let ghost rest = s@.skip(i as int);
        if matches_at(&v, &w, i) {
            proof {
                assert(rest.subrange(0, p@.len() as int) =~= s@.subrange(i as int, i + p@.len()));
                assert(occurs_at(rest, p@, 0));
                assert(rest.skip(p@.len() as int) =~= s@.skip(i + p@.len()));
                assert(r@ + (to@ + replaced(s@.skip(i + p@.len()), p@, to@)) =~= (r@ + to@)
                    + replaced(s@.skip(i + p@.len()), p@, to@));
            }
            r.append(to);
            i += w.len();
        } else {
            proof {
                if rest.len() >= p@.len() {
                    assert(rest.subrange(0, p@.len() as int) =~= s@.subrange(
                        i as int,
                        i + p@.len(),
                    ));
                    assert(!occurs_at(rest, p@, 0));
                    assert(rest.skip(1) =~= s@.skip(i + 1));
                    assert(r@ + (seq![rest[0]] + replaced(s@.skip(i + 1), p@, to@)) =~= r@.push(
                        v@[i as int],
                    ) + replaced(s@.skip(i + 1), p@, to@));
                } else {
                    assert(s@.skip(i + 1).len() < p@.len());
                    assert(r@ + rest =~= r@.push(v@[i as int]) + s@.skip(i + 1));
                }
            }
            r.push(v[i]);
            i += 1;
        }
    }
    proof {
        assert(s@.skip(v.len() as int) =~= Seq::<char>::empty());
        assert(r@ + Seq::<char>::empty() =~= r@);
    }
    r
}

// ---------------------------------------------------------------------------
// Splitting and joining
// ---------------------------------------------------------------------------

/// The index of the first `c` in `s`, or the length of `s`.
pub open spec fn first_of(s: Seq<char>, c: char) -> int
    decreases s.len(),
{
    if s.len() == 0 || s[0] == c {
        0
    } else {
        1 + first_of(s.skip(1), c)
    }
}

pub proof fn lemma_first_of(s: Seq<char>, c: char, i: int)
    requires
        0 <= i <= s.len(),
        forall|k: int| 0 <= k < i ==> #[trigger] s[k] != c,
        i < s.len() ==> s[i] == c,
    ensures
        first_of(s, c) == i,
    decreases i,
{
    if i > 0 {
        assert(s[0] != c);
        let t = s.skip(1);
        assert forall|k: int| 0 <= k < i - 1 implies #[trigger] t[k] != c by {
            assert(t[k] == s[k + 1]);
        }
        lemma_first_of(t, c, i - 1);
    }
}

pub proof fn lemma_first_of_bounds(s: Seq<char>, c: char)
    ensures
        0 <= first_of(s, c) <= s.len(),
        forall|k: int| 0 <= k < first_of(s, c) ==> s[k] != c,
        first_of(s, c) < s.len() ==> s[first_of(s, c)] == c,
    decreases s.len(),
{
    if s.len() > 0 && s[0] != c {
        let t = s.skip(1);
        lemma_first_of_bounds(t, c);
        assert forall|k: int| 0 <= k < first_of(s, c) implies s[k] != c by {
            if k > 0 {
                assert(t[k - 1] == s[k]);
            }
        }
    }
}

/// The index of the first `c` in `s`, or the length of `s`.
pub fn find_char(s: &str, c: char) -> (r: usize)
    ensures
        r == first_of(s@, c),
        r <= s@.len(),
{
    let v: Vec<char> = chars_of(s);
    let mut i: usize = 0;
    while i < v.len() && v[i] != c
        invariant
            i <= v.len(),
            v@ == s@,
            forall|k: int| 0 <= k < i ==> #[trigger] v@[k] != c,
        decreases v.len() - i,
    {
        i += 1;
    }
    proof {
        lemma_first_of(s@, c, i as int);
    }
    i
}

/// The parts of `s` between the characters `c`.
pub open spec fn split(s: Seq<char>, c: char) -> Seq<Seq<char>>
    decreases s.len(),
{
    let i = first_of(s, c);
    if 0 <= i < s.len() {
        seq![s.take(i)] + split(s.skip(i + 1), c)
    } else {
        seq![s]
    }
}

pub fn split_on(s: &str, c: char) -> (r: Vec<String>)
    ensures
        texts(r@) == split(s@, c),
{
    let v: Vec<char> = chars_of(s);
    let mut r: Vec<String> = Vec::new();
    let mut start: usize = 0;
    let mut i: usize = 0;
    assert(s@.skip(0) =~= s@);
    assert(texts(r@) + split(s@, c) =~= split(s@, c));
    while i < v.len()
        invariant
            start <= i <= v.len(),
            v@ == s@,
            forall|k: int| start <= k < i ==> v@[k] != c,
            split(s@, c) == texts(r@) + split(s@.skip(start as int), c),
        decreases v.len() - i,
    {
        if v[i] == c {
            let part: String = s.substring_char(start, i).to_owned();
            proof {
                let rest = s@.skip(start as int);
                assert forall|k: int| 0 <= k < i - start implies #[trigger] rest[k] != c by {
                    assert(rest[k] == v@[k + start]);
                }
                lemma_first_of(rest, c, i - start);
                assert(rest.take(i - start) =~= part@);
                assert(rest.skip(i - start + 1) =~= s@.skip(i + 1));
                lemma_texts_push(r@, part);
                assert(texts(r@) + (seq![part@] + split(s@.skip(i + 1), c)) =~= texts(r@).push(
                    part@,
                ) + split(s@.skip(i + 1), c));
            }
            r.push(part);
            start = i + 1;
        }
        i += 1;
    }
    let part: String = s.substring_char(start, i).to_owned();
    proof {
        let rest = s@.skip(start as int);
        assert forall|k: int| 0 <= k < i - start implies #[trigger] rest[k] != c by {
            assert(rest[k] == v@[k + start]);
        }
        lemma_first_of(rest, c, i - start);
        assert(rest =~= part@);
        lemma_texts_push(r@, part);
        assert(texts(r@) + seq![part@] =~= texts(r@).push(part@));
    }
    r.push(part);
    r
}

/// `s` without a carriage return at its end.
pub open spec fn strip_cr(s: Seq<char>) -> Seq<char> {
    if s.len() > 0 && s.last() == '\r' {
        s.drop_last()
    } else {
        s
    }
}

/// The lines of `s`: each but the last ends in a line feed or in a carriage
/// return and a line feed, and an empty last line is none.
pub open spec fn lines(s: Seq<char>) -> Seq<Seq<char>> {
    let parts = split(s, '\n');
    let ended = parts.drop_last().map_values(|p: Seq<char>| strip_cr(p));
    if parts.last().len() == 0 {
        ended
    } else {
        ended.push(parts.last())
    }
}

pub proof fn lemma_split_nonempty(s: Seq<char>, c: char)
    ensures
        split(s, c).len() > 0,
{
}

pub fn lines_of(s: &str) -> (r: Vec<String>)
    ensures
        texts(r@) == lines(s@),
{
    let parts: Vec<String> = split_on(s, '\n');
    let ghost all = split(s@, '\n');
    let ghost ended = all.drop_last().map_values(|p: Seq<char>| strip_cr(p));
    proof {
        lemma_split_nonempty(s@, '\n');
        assert(texts(parts@).len() == parts@.len());
    }
    let mut r: Vec<String> = Vec::new();
    let last: usize = parts.len() - 1;
    let mut i: usize = 0;
    while i < last
        invariant
            i <= last,
            last + 1 == parts.len(),
            texts(parts@) == all,
            ended == all.drop_last().map_values(|p: Seq<char>| strip_cr(p)),
            texts(r@) == ended.take(i as int),
        decreases last - i,
    {
        let p: &str = parts[i].as_str();
        let n: usize = p.unicode_len();
        assert(all[i as int] == p@);
        let line: String = if n > 0 && p.get_char(n - 1) == '\r' {
            p.substring_char(0, n - 1).to_owned()
        } else {
            p.to_owned()
        };
        proof {
            if n > 0 {
                assert(p@.subrange(0, n - 1) =~= p@.drop_last());
            }
            assert(line@ == strip_cr(p@));
            lemma_texts_push(r@, line);
            assert(ended.take(i as int).push(line@) =~= ended.take(i + 1));
        }
        r.push(line);
        i += 1;
    }
    proof {
        assert(ended.take(last as int) =~= ended);
        assert(all.last() == parts[last as int]@);
    }
    if parts[last].unicode_len() > 0 {
        proof {
            lemma_texts_push(r@, parts[last as int]);
        }
        r.push(parts[last].clone());
    }
    r
}

/// The texts in `parts` with `sep` between them.
pub open spec fn joined(parts: Seq<Seq<char>>, sep: Seq<char>) -> Seq<char>
    decreases parts.len(),
{
    if parts.len() == 0 {
        Seq::empty()
    } else if parts.len() == 1 {
        parts[0]
    } else {
        joined(parts.drop_last(), sep) + sep + parts.last()
    }
}

pub proof fn lemma_joined_cons(first: Seq<char>, rest: Seq<Seq<char>>, sep: Seq<char>)
    requires
        rest.len() > 0,
    ensures
        joined(seq![first] + rest, sep) == first + sep + joined(rest, sep),
    decreases rest.len(),
{
    let all = seq![first] + rest;
    if rest.len() == 1 {
        assert(all.drop_last() =~= seq![first]);
        assert(joined(all.drop_last(), sep) == first);
    } else {
        lemma_joined_cons(first, rest.drop_last(), sep);
        assert(all.drop_last() =~= seq![first] + rest.drop_last());
        assert(all.last() == rest.last());
        assert(joined(all, sep) =~= first + sep + joined(rest, sep));
    }
}

/// A text is what its parts make when joined again.
pub proof fn lemma_split_joined(s: Seq<char>, c: char)
    ensures
        joined(split(s, c), seq![c]) == s,
    decreases s.len(),
{
    let i = first_of(s, c);
    lemma_first_of_bounds(s, c);
    if 0 <= i < s.len() {
        let rest = s.skip(i + 1);
        lemma_split_joined(rest, c);
        lemma_joined_cons(s.take(i), split(rest, c), seq![c]);
        assert(s.take(i) + seq![c] + rest =~= s);
    } else {
        assert(joined(seq![s], seq![c]) == s);
    }
}

/// Parts without a separator in them are what their text is made of.
pub proof fn lemma_joined_split(parts: Seq<Seq<char>>, c: char)
    requires
        parts.len() > 0,
        forall|i: int| 0 <= i < parts.len() ==> !(#[trigger] parts[i]).contains(c),
    ensures
        split(joined(parts, seq![c]), c) == parts,
    decreases parts.len(),
{
    let first = parts[0];
    let s = joined(parts, seq![c]);
    if parts.len() == 1 {
        assert(s =~= first);
        assert forall|k: int| 0 <= k < s.len() implies s[k] != c by {
            assert(first.contains(first[k]));
        }
        lemma_first_of(s, c, s.len() as int);
        assert(parts =~= seq![first]);
    } else {
        let rest = parts.skip(1);
        assert(parts =~= seq![first] + rest);
        lemma_joined_cons(first, rest, seq![c]);
        assert forall|k: int| 0 <= k < first.len() implies s[k] != c by {
            assert(first.contains(first[k]));
        }
        lemma_first_of(s, c, first.len() as int);
        assert(s.take(first.len() as int) =~= first);
        assert(s.skip(first.len() as int + 1) =~= joined(rest, seq![c]));
        assert forall|i: int| 0 <= i < rest.len() implies !(#[trigger] rest[i]).contains(c) by {
            assert(rest[i] == parts[i + 1]);
        }
        lemma_joined_split(rest, c);
    }
}

pub fn join(parts: &Vec<String>, sep: &str) -> (r: String)
    ensures
        r@ == joined(texts(parts@), sep@),
{
    let mut r: String = String::new();
    let mut i: usize = 0;
    let ghost all = texts(parts@);
    while i < parts.len()
        invariant
            i <= parts.len(),
            all == texts(parts@),
            r@ == joined(all.take(i as int), sep@),
        decreases parts.len() - i,
    {
        proof {
            assert(all.take(i + 1).drop_last() =~= all.take(i as int));
            assert(all.take(i + 1).last() == parts[i as int]@);
            assert(all[i as int] == parts[i as int]@);
        }
        if i > 0 {
            r.append(sep);
        }
        r.append(parts[i].as_str());
        i += 1;
    }
    assert(all.take(parts.len() as int) =~= all);
    r
}

/// The number of characters before the first white space.
pub open spec fn word_len(s: Seq<char>) -> int
    decreases s.len(),
{
    if s.len() == 0 || is_space(s[0]) {
        0
    } else {
        1 + word_len(s.skip(1))
    }
}

pub proof fn lemma_word_len(s: Seq<char>, i: int)
    requires
        0 <= i <= s.len(),
        forall|k: int| 0 <= k < i ==> !is_space(#[trigger] s[k]),
        i < s.len() ==> is_space(s[i]),
    ensures
        word_len(s) == i,
    decreases i,
{
    if i > 0 {
        assert(!is_space(s[0]));
        let t = s.skip(1);
        assert forall|k: int| 0 <= k < i - 1 implies !is_space(#[trigger] t[k]) by {
            assert(t[k] == s[k + 1]);
        }
        lemma_word_len(t, i - 1);
    }
}

pub proof fn lemma_word_len_bounds(s: Seq<char>)
    ensures
        0 <= word_len(s) <= s.len(),
    decreases s.len(),
{
    if s.len() > 0 && !is_space(s[0]) {
        lemma_word_len_bounds(s.skip(1));
    }
}

/// What stands before the first white space of `s`.
pub open spec fn first_word(s: Seq<char>) -> Seq<char> {
    s.take(word_len(s))
}

/// What stands behind the first white space of `s`; nothing if there is none.
pub open spec fn after_word(s: Seq<char>) -> Seq<char> {
    if word_len(s) < s.len() {
        s.skip(word_len(s) + 1)
    } else {
        Seq::empty()
    }
}

/// Cuts `s` at its first white space, which is dropped.
pub fn cut_word<'a>(s: &'a str) -> (r: (&'a str, &'a str))
    ensures
        r.0@ == first_word(s@),
        r.1@ == after_word(s@),
{
    let v: Vec<char> = chars_of(s);
    let mut i: usize = 0;
    while i < v.len() && !whitespace(v[i])
        invariant
            i <= v.len(),
            v@ == s@,
            forall|k: int| 0 <= k < i ==> !is_space(#[trigger] v@[k]),
        decreases v.len() - i,
    {
        i += 1;
    }
    proof {
        lemma_word_len(s@, i as int);
    }
    if i < v.len() {
        (s.substring_char(0, i), s.substring_char(i + 1, v.len()))
    } else {
        assert(s@.skip(i as int) =~= Seq::<char>::empty());
        (s.substring_char(0, i), s.substring_char(i, i))
    }
}

// ---------------------------------------------------------------------------
// Numbers
// ---------------------------------------------------------------------------

/// The character of a decimal digit.
pub open spec fn digit(d: nat) -> char {
    (48 + d) as char
}

/// A number in decimal digits.
pub open spec fn decimal(n: nat) -> Seq<char>
    decreases n,
{
    if n < 10 {
        seq![digit(n)]
    } else {
        decimal(n / 10).push(digit(n % 10))
    }
}

fn digit_char(d: u64) -> (c: char)
    requires
        d < 10,
    ensures
        c == digit(d as nat),
{
    if d == 0 {
        '0'
    } else if d == 1 {
        '1'
    } else if d == 2 {
        '2'
    } else if d == 3 {
        '3'
    } else if d == 4 {
        '4'
    } else if d == 5 {
        '5'
    } else if d == 6 {
        '6'
    } else if d == 7 {
        '7'
    } else if d == 8 {
        '8'
    } else {
        '9'
    }
}

pub fn decimal_of(n: u64) -> (s: String)
    ensures
        s@ == decimal(n as nat),
    decreases n,
{
    if n < 10 {
        let mut s: String = String::new();
        s.push(digit_char(n));
        assert(s@ =~= seq![digit(n as nat)]);
        s
    } else {
        let mut s: String = decimal_of(n / 10);
        s.push(digit_char(n % 10));
        s
    }
}

/// A signed number in decimal digits.
pub open spec fn decimal_int(n: int) -> Seq<char> {
    if n < 0 {
        seq!['-'] + decimal((-n) as nat)
    } else {
        decimal(n as nat)
    }
}

pub fn decimal_of_signed(n: i64) -> (s: String)
    ensures
        s@ == decimal_int(n as int),
{
    if n < 0 {
        let magnitude: u64 = if n == i64::MIN {
            9223372036854775808
        } else {
            (-n) as u64
        };
        let mut s: String = String::new();
        s.push('-');
        let digits: String = decimal_of(magnitude);
        s.append(digits.as_str());
        assert(s@ =~= seq!['-'] + decimal(magnitude as nat));
        s
    } else {
        decimal_of(n as u64)
    }
}

pub proof fn lemma_occurs_in(before: Seq<char>, s: Seq<char>, after: Seq<char>)
    ensures
        occurs(before + s + after, s),
{
    let all = before + s + after;
    assert(all.subrange(before.len() as int, (before.len() + s.len()) as int) =~= s);
    assert(occurs_at(all, s, before.len() as int));
}

pub proof fn lemma_part_occurs(parts: Seq<Seq<char>>, sep: Seq<char>, i: int) -> (r: (
    Seq<char>,
    Seq<char>,
))
    requires
        0 <= i < parts.len(),
    ensures
        joined(parts, sep) == r.0 + parts[i] + r.1,
    decreases parts.len(),
{
    if parts.len() == 1 {
        assert(joined(parts, sep) =~= Seq::<char>::empty() + parts[0] + Seq::<char>::empty());
        (Seq::empty(), Seq::empty())
    } else if i == parts.len() - 1 {
        let before = joined(parts.drop_last(), sep) + sep;
        assert(joined(parts, sep) =~= before + parts[i] + Seq::<char>::empty());
        (before, Seq::empty())
    } else {
        let (a, b) = lemma_part_occurs(parts.drop_last(), sep, i);
        let after = b + sep + parts.last();
        assert(parts.drop_last()[i] == parts[i]);
        assert(joined(parts, sep) =~= a + parts[i] + after);
        (a, after)
    }
}

// ---------------------------------------------------------------------------
// Laws
// ---------------------------------------------------------------------------

/// Among ASCII characters, white space is the space and what lies from the tab
/// to the carriage return; the ideographic space is white space too.
pub proof fn law_white_space(c: char)
    ensures
        c <= '\u{7f}' ==> (is_space(c) <==> c == ' ' || c == '\t' || c == '\n' || c == '\u{b}' || c
            == '\u{c}' || c == '\r'),
        is_space('\u{3000}') && is_space('\u{a0}'),
        '\u{3001}' <= c ==> !is_space(c),
{
}

/// Trimming takes white space off both ends and nothing else: what is left
/// stands in the text between white space, and has none at its ends.
pub proof fn law_trimmed_stands_in_the_text(s: Seq<char>) -> (r: (Seq<char>, Seq<char>))
    ensures
        s == r.0 + trimmed(s) + r.1,
        forall|i: int| 0 <= i < r.0.len() ==> is_space(#[trigger] r.0[i]),
        forall|i: int| 0 <= i < r.1.len() ==> is_space(#[trigger] r.1[i]),
        trimmed(s).len() > 0 ==> !is_space(trimmed(s)[0]) && !is_space(trimmed(s).last()),
    decreases s.len(),
{
    if s.len() == 0 {
        assert(s + trimmed(s) + s =~= s);
        (s, s)
    } else if is_space(s[0]) {
        let (a, b) = law_trimmed_stands_in_the_text(s.skip(1));
        let a1 = seq![s[0]] + a;
        assert(s =~= seq![s[0]] + s.skip(1));
        assert(a1 + trimmed(s) + b =~= seq![s[0]] + (a + trimmed(s) + b));
        (a1, b)
    } else {
        let b = lemma_trim_end_stands(s);
        assert(Seq::<char>::empty() + trimmed(s) + b =~= trim_end(s) + b);
        (Seq::empty(), b)
    }
}

proof fn lemma_trim_end_stands(s: Seq<char>) -> (b: Seq<char>)
    ensures
        s == trim_end(s) + b,
        forall|i: int| 0 <= i < b.len() ==> is_space(#[trigger] b[i]),
        trim_end(s).len() > 0 ==> !is_space(trim_end(s).last()) && trim_end(s)[0] == s[0],
    decreases s.len(),
{
    if s.len() > 0 && is_space(s.last()) {
        let b = lemma_trim_end_stands(s.drop_last());
        assert(s =~= s.drop_last().push(s.last()));
        assert(trim_end(s) + b.push(s.last()) =~= (trim_end(s) + b).push(s.last()));
        b.push(s.last())
    } else {
        assert(s + Seq::<char>::empty() =~= s);
        Seq::empty()
    }
}

/// The number that decimal digits stand for.
pub open spec fn value_of(s: Seq<char>) -> int
    decreases s.len(),
{
    if s.len() == 0 {
        0
    } else {
        10 * value_of(s.drop_last()) + (s.last() as int - '0' as int)
    }
}

/// A number in decimal digits reads back as that number; it has no needless
/// zero at its start.
pub proof fn law_decimal_reads_back(n: nat)
    ensures
        value_of(decimal(n)) == n,
        decimal(n).len() > 0,
        forall|i: int| 0 <= i < decimal(n).len() ==> '0' <= #[trigger] decimal(n)[i] <= '9',
        n > 0 ==> decimal(n)[0] != '0',
    decreases n,
{
    if n >= 10 {
        law_decimal_reads_back(n / 10);
        assert(decimal(n).drop_last() =~= decimal(n / 10));
    } else {
        assert(decimal(n).drop_last() =~= Seq::empty());
        assert(value_of(Seq::empty()) == 0);
    }
}

/// A negative number is its digits behind a minus sign; any other is its
/// digits.
pub proof fn law_signed_decimal_reads_back(n: int)
    ensures
        n >= 0 ==> value_of(decimal_int(n)) == n && decimal_int(n)[0] != '-',
        n < 0 ==> decimal_int(n)[0] == '-' && value_of(decimal_int(n).skip(1)) == -n,
{
    if n >= 0 {
        law_decimal_reads_back(n as nat);
        assert('0' <= decimal(n as nat)[0] <= '9');
    } else {
        law_decimal_reads_back((-n) as nat);
        assert(decimal_int(n).skip(1) =~= decimal((-n) as nat));
    }
}

/// How often a character stands in a text.
pub open spec fn count_of(s: Seq<char>, c: char) -> nat
    decreases s.len(),
{
    if s.len() == 0 {
        0
    } else {
        count_of(s.skip(1), c) + if s[0] == c {
            1nat
        } else {
            0
        }
    }
}

pub proof fn lemma_count_concat(a: Seq<char>, b: Seq<char>, c: char)
    ensures
        count_of(a + b, c) == count_of(a, c) + count_of(b, c),
    decreases a.len(),
{
    if a.len() == 0 {
        assert(a + b =~= b);
    } else {
        assert((a + b).skip(1) =~= a.skip(1) + b);
        lemma_count_concat(a.skip(1), b, c);
    }
}

pub proof fn lemma_count_none(s: Seq<char>, c: char)
    requires
        !s.contains(c),
    ensures
        count_of(s, c) == 0,
    decreases s.len(),
{
    if s.len() > 0 {
        assert(s.contains(s[0]));
        assert forall|i: int| 0 <= i < s.skip(1).len() implies s.skip(1)[i] != c by {
            assert(s.contains(s[i + 1]));
        }
        lemma_count_none(s.skip(1), c);
    }
}

/// A text is split at each separator and nowhere else: the parts hold none, they
/// are one more than there are separators, and joined again they are the text.
pub proof fn law_split_at_each_separator(s: Seq<char>, c: char)
    ensures
        split(s, c).len() == count_of(s, c) + 1,
        forall|k: int| 0 <= k < split(s, c).len() ==> !(#[trigger] split(s, c)[k]).contains(c),
        joined(split(s, c), seq![c]) == s,
    decreases s.len(),
{
    lemma_split_joined(s, c);
    let i = first_of(s, c);
    lemma_first_of_bounds(s, c);
    if i < s.len() {
        let rest = s.skip(i + 1);
        law_split_at_each_separator(rest, c);
        lemma_count_none(s.take(i), c);
        lemma_count_concat(s.take(i), s.skip(i), c);
        assert(s =~= s.take(i) + s.skip(i));
        assert(s.skip(i).skip(1) =~= rest);
        assert forall|k: int| 0 <= k < split(s, c).len() implies !(#[trigger] split(
            s,
            c,
        )[k]).contains(c) by {
            if k > 0 {
                assert(split(s, c)[k] == split(rest, c)[k - 1]);
            }
        }
    } else {
        lemma_count_none(s, c);
    }
}

/// The lines of a text without carriage returns, joined again, are the text, but
/// for a line feed at its end.
pub proof fn law_lines_are_the_text(s: Seq<char>)
    requires
        !s.contains('\r'),
    ensures
        s == joined(lines(s), "\n"@) || s == joined(lines(s), "\n"@) + "\n"@,
        forall|k: int| 0 <= k < lines(s).len() ==> !(#[trigger] lines(s)[k]).contains('\n'),
{
    reveal_strlit("\n");
    assert("\n"@ =~= seq!['\n']);
    law_split_at_each_separator(s, '\n');
    let parts = split(s, '\n');
    let ended = parts.drop_last().map_values(|p: Seq<char>| strip_cr(p));
    assert forall|k: int| 0 <= k < parts.len() - 1 implies ended[k] == parts[k] by {
        lemma_part_within(s, '\n', k);
        if parts[k].len() > 0 && parts[k].last() == '\r' {
            assert(parts[k].contains('\r'));
        }
    }
    assert(ended =~= parts.drop_last());
    if parts.last().len() == 0 {
        if parts.len() > 1 {
            assert(s =~= joined(parts.drop_last(), seq!['\n']) + seq!['\n']);
        } else {
            assert(s =~= joined(lines(s), "\n"@));
        }
    } else {
        assert(lines(s) =~= parts);
    }
}

proof fn lemma_part_within(s: Seq<char>, c: char, k: int)
    requires
        0 <= k < split(s, c).len(),
    ensures
        forall|x: char| split(s, c)[k].contains(x) ==> s.contains(x),
    decreases s.len(),
{
    let i = first_of(s, c);
    lemma_first_of_bounds(s, c);
    if i < s.len() {
        let rest = s.skip(i + 1);
        if k == 0 {
            assert forall|x: char| s.take(i).contains(x) implies s.contains(x) by {
                let m = choose|m: int| 0 <= m < i && s.take(i)[m] == x;
                assert(s[m] == x);
            }
        } else {
            lemma_part_within(rest, c, k - 1);
            assert forall|x: char| split(s, c)[k].contains(x) implies s.contains(x) by {
                assert(rest.contains(x));
                let m = choose|m: int| 0 <= m < rest.len() && rest[m] == x;
                assert(s[m + i + 1] == x);
            }
        }
    }
}

/// Replacing one character by another changes each of its occurrences and
/// nothing else.
pub proof fn law_replacing_a_character(s: Seq<char>, a: char, b: char)
    ensures
        replaced(s, seq![a], seq![b]).len() == s.len(),
        forall|i: int|
            0 <= i < s.len() ==> #[trigger] replaced(s, seq![a], seq![b])[i] == if s[i] == a {
                b
            } else {
                s[i]
            },
    decreases s.len(),
{
    let r = replaced(s, seq![a], seq![b]);
    if s.len() > 0 {
        let t = s.skip(1);
        let u = replaced(t, seq![a], seq![b]);
        law_replacing_a_character(t, a, b);
        assert(s.subrange(0, 1) =~= seq![s[0]]);
        if s[0] == a {
            assert(occurs_at(s, seq![a], 0));
            assert(r =~= seq![b] + u);
        } else {
            assert(!occurs_at(s, seq![a], 0)) by {
                assert(s.subrange(0, 1)[0] != seq![a][0]);
            }
            assert(r =~= seq![s[0]] + u);
        }
        assert forall|i: int| 0 <= i < s.len() implies #[trigger] r[i] == if s[i] == a {
            b
        } else {
            s[i]
        } by {
            if i > 0 {
                assert(r[i] == u[i - 1]);
                assert(t[i - 1] == s[i]);
            }
        }
    }
}

/// The first word of a text has no white space in it, and with the white space
/// and what stands behind that it is the text.
pub proof fn law_first_word_is_cut_off(s: Seq<char>)
    ensures
        forall|i: int| 0 <= i < first_word(s).len() ==> !is_space(#[trigger] first_word(s)[i]),
        s == first_word(s) && after_word(s).len() == 0 || first_word(s).len() < s.len() && is_space(
            s[first_word(s).len() as int],
        ) && s == first_word(s) + seq![s[first_word(s).len() as int]] + after_word(s),
    decreases s.len(),
{
    if s.len() > 0 && !is_space(s[0]) {
        let t = s.skip(1);
        law_first_word_is_cut_off(t);
        lemma_word_len_bounds(t);
        lemma_word_len_bounds(s);
        assert(first_word(s) =~= seq![s[0]] + first_word(t));
        assert(s =~= seq![s[0]] + t);
        assert forall|i: int| 0 <= i < first_word(s).len() implies !is_space(
            #[trigger] first_word(s)[i],
        ) by {
            if i > 0 {
                assert(first_word(s)[i] == first_word(t)[i - 1]);
            }
        }
        if word_len(s) < s.len() {
            assert(s =~= first_word(s) + seq![s[word_len(s)]] + after_word(s));
            assert(t[word_len(t)] == s[word_len(s)]);
        } else {
            assert(s =~= first_word(s));
        }
    } else if s.len() > 0 {
        assert(s =~= first_word(s) + seq![s[0]] + after_word(s));
    } else {
        assert(s =~= first_word(s));
    }
}

/// Cutting keeps the start of a text: what is short enough stays whole, and of
/// anything else exactly the first `max` characters stay, with the mark.
pub proof fn law_cutting_keeps_the_start(s: Seq<char>, max: nat, mark: Seq<char>)
    ensures
        s.len() <= max ==> clipped(s, max, mark) == s && prefix(s, max) == s,
        s.len() > max ==> clipped(s, max, mark).len() == max + mark.len() && clipped(
            s,
            max,
            mark,
        ).skip(max as int) == mark && prefix(s, max).len() == max,
        forall|i: int|
            0 <= i < max && i < s.len() ==> clipped(s, max, mark)[i] == s[i] && #[trigger] prefix(
                s,
                max,
            )[i] == s[i],
{
    if s.len() > max {
        assert(clipped(s, max, mark).skip(max as int) =~= mark);
    }
}

/// Where a text does not occur there is nothing to replace.
pub proof fn law_nothing_to_replace(s: Seq<char>, p: Seq<char>, to: Seq<char>)
    requires
        !occurs(s, p),
    ensures
        replaced(s, p, to) == s,
    decreases s.len(),
{
    if p.len() > 0 && s.len() >= p.len() {
        assert(!occurs_at(s, p, 0));
        let t = s.skip(1);
        if occurs(t, p) {
            let i = choose|i: int| #[trigger] occurs_at(t, p, i);
            assert(t.subrange(i, i + p.len()) =~= s.subrange(i + 1, i + 1 + p.len()));
            assert(occurs_at(s, p, i + 1));
        }
        law_nothing_to_replace(t, p, to);
        assert(seq![s[0]] + t =~= s);
    }
}

/// Lowercase is the same text with small letters for the capital ones.
pub proof fn law_lowercase_keeps_the_rest(s: Seq<char>, i: int)
    requires
        0 <= i < s.len(),
    ensures
        ascii_lowered(s).len() == s.len(),
        !('A' <= ascii_lowered(s)[i] <= 'Z'),
        !('A' <= s[i] <= 'Z') ==> ascii_lowered(s)[i] == s[i],
        'A' <= s[i] <= 'Z' ==> 'a' <= ascii_lowered(s)[i] <= 'z' && ascii_lowered(s)[i] as int
            - 'a' as int == s[i] as int - 'A' as int,
        ascii(s) ==> ascii_lowered(s)[i] <= '\u{7f}',
{
}

} // verus!
