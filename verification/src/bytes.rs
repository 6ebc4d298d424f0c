//! Texts by their length in UTF-8.

use crate::text::chars_of;
use vstd::prelude::*;
use vstd::string::*;
use vstd::utf8::{char_is_scalar, encode_scalar, encode_utf8};

verus! {

/// The bytes that a character takes.
pub open spec fn width(c: char) -> nat {
    if c <= '\u{7f}' {
        1
    } else if c <= '\u{7ff}' {
        2
    } else if c <= '\u{ffff}' {
        3
    } else {
        4
    }
}

/// The bytes that a text takes.
pub open spec fn byte_len(s: Seq<char>) -> nat
    decreases s.len(),
{
    if s.len() == 0 {
        0
    } else {
        width(s[0]) + byte_len(s.skip(1))
    }
}

/// The number of characters at the start of `s` that fit into `max` bytes.
pub open spec fn fitting(s: Seq<char>, max: int) -> int
    decreases s.len(),
{
    if s.len() == 0 || width(s[0]) > max {
        0
    } else {
        1 + fitting(s.skip(1), max - width(s[0]))
    }
}

pub fn width_of(c: char) -> (r: usize)
    ensures
        r == width(c),
{
    if c <= '\u{7f}' {
        1
    } else if c <= '\u{7ff}' {
        2
    } else if c <= '\u{ffff}' {
        3
    } else {
        4
    }
}

proof fn lemma_width(c: char)
    ensures
        encode_scalar(c as u32).len() == width(c),
{
    char_is_scalar(c);
}

pub proof fn lemma_byte_len_concat(a: Seq<char>, b: Seq<char>)
    ensures
        byte_len(a + b) == byte_len(a) + byte_len(b),
    decreases a.len(),
{
    if a.len() == 0 {
        assert(a + b =~= b);
    } else {
        assert((a + b).skip(1) =~= a.skip(1) + b);
        lemma_byte_len_concat(a.skip(1), b);
    }
}

/// What fits is within the limit, one character more is not, and everything
/// fits exactly where the whole text is within the limit.
pub proof fn lemma_fitting(s: Seq<char>, max: int)
    requires
        max >= 0,
    ensures
        0 <= fitting(s, max) <= s.len(),
        byte_len(s.take(fitting(s, max))) <= max,
        fitting(s, max) < s.len() ==> byte_len(s.take(fitting(s, max) + 1)) > max,
        fitting(s, max) == s.len() <==> byte_len(s) <= max,
    decreases s.len(),
{
    if s.len() == 0 {
        assert(s.take(0) =~= s);
    } else if width(s[0]) > max {
        assert(s.take(0) =~= Seq::<char>::empty());
        assert(s.take(1).skip(1) =~= Seq::<char>::empty());
        assert(s.take(1)[0] == s[0]);
        assert(byte_len(s.take(1)) == width(s[0])) by {
            reveal_with_fuel(byte_len, 2);
        }
    } else {
        let t = s.skip(1);
        let left = max - width(s[0]);
        lemma_fitting(t, left);
        let n = fitting(t, left);
        assert(s.take(n + 1).skip(1) =~= t.take(n));
        if n < t.len() {
            assert(s.take(n + 2).skip(1) =~= t.take(n + 1));
        }
    }
}

/// One more character fits where its bytes do.
proof fn lemma_fitting_step(s: Seq<char>, max: int, i: int)
    requires
        0 <= i <= s.len(),
        byte_len(s.take(i)) <= max,
    ensures
        fitting(s, max) == i + fitting(s.skip(i), max - byte_len(s.take(i))),
    decreases i,
{
    if i == 0 {
        assert(s.skip(0) =~= s);
        assert(s.take(0) =~= Seq::<char>::empty());
    } else {
        let t = s.skip(1);
        assert(s.take(i).skip(1) =~= t.take(i - 1));
        assert(t.skip(i - 1) =~= s.skip(i));
        lemma_fitting_step(t, max - width(s[0]), i - 1);
    }
}

/// The number of characters from `from` on that fit into `max` bytes.
pub fn fit(v: &Vec<char>, from: usize, max: usize) -> (r: usize)
    requires
        from <= v.len(),
    ensures
        r == fitting(v@.skip(from as int), max as int),
        r <= v.len() - from,
{
    let ghost s = v@.skip(from as int);
    let mut i: usize = 0;
    let mut used: usize = 0;
    assert(s.take(0) =~= Seq::<char>::empty());
    while from + i < v.len() && width_of(v[from + i]) <= max - used
        invariant
            from + i <= v.len(),
            s == v@.skip(from as int),
            used == byte_len(s.take(i as int)),
            used <= max,
        decreases v.len() - from - i,
    {
        proof {
            assert(s[i as int] == v@[from + i]);
            assert(s.take(i + 1) =~= s.take(i as int) + seq![s[i as int]]);
            lemma_byte_len_concat(s.take(i as int), seq![s[i as int]]);
            reveal_with_fuel(byte_len, 2);
        }
        used = used + width_of(v[from + i]);
        i += 1;
    }
    proof {
        lemma_fitting_step(s, max as int, i as int);
        let rest = s.skip(i as int);
        if rest.len() > 0 {
            assert(rest[0] == v@[from + i]);
        }
    }
    i
}

/// Whether a text takes at most `max` bytes.
pub fn within(s: &str, max: usize) -> (r: bool)
    ensures
        r == (byte_len(s@) <= max),
{
    let v: Vec<char> = chars_of(s);
    assert(v@.skip(0) =~= v@);
    proof {
        lemma_fitting(s@, max as int);
    }
    fit(&v, 0, max) == v.len()
}

// ---------------------------------------------------------------------------
// Short ids
// ---------------------------------------------------------------------------

/// The characters of a text that lie whole within its first eight bytes.
pub open spec fn short(s: Seq<char>) -> Seq<char> {
    s.take(fitting(s, 8))
}

/// The characters of a text that lie whole within its first eight bytes.
pub fn shorten<'a>(s: &'a str) -> (r: &'a str)
    ensures
        r@ == short(s@),
{
    let v: Vec<char> = chars_of(s);
    assert(v@.skip(0) =~= v@);
    let n: usize = fit(&v, 0, 8);
    let r: &str = s.substring_char(0, n);
    assert(r@ =~= s@.take(n as int));
    r
}

// ---------------------------------------------------------------------------
// Laws
// ---------------------------------------------------------------------------

/// The length of a text is that of its encoding in UTF-8.
pub proof fn law_length_is_that_of_utf8(s: Seq<char>)
    ensures
        encode_utf8(s).len() == byte_len(s),
    decreases s.len(),
{
    if s.len() > 0 {
        assert(s.drop_first() =~= s.skip(1));
        law_length_is_that_of_utf8(s.skip(1));
        lemma_width(s[0]);
    }
}

/// The short form of a text is how it starts, in at most eight bytes, and as far
/// as whole characters of it fit.
pub proof fn law_short_form_is_the_start(s: Seq<char>)
    ensures
        short(s).is_prefix_of(s),
        byte_len(short(s)) <= 8,
        byte_len(s) <= 8 ==> short(s) == s,
        short(s).len() < s.len() ==> byte_len(s.take(short(s).len() as int + 1)) > 8,
{
    lemma_fitting(s, 8);
    if byte_len(s) <= 8 {
        assert(short(s) =~= s);
    }
}

/// The short form of a text in ASCII is its first eight characters.
pub proof fn law_short_form_of_ascii(s: Seq<char>)
    requires
        forall|i: int| 0 <= i < s.len() ==> #[trigger] s[i] <= '\u{7f}',
    ensures
        s.len() >= 8 ==> short(s) == s.take(8),
        s.len() < 8 ==> short(s) == s,
{
    lemma_ascii_fitting(s, 8);
    assert(s.take(s.len() as int) =~= s);
}

proof fn lemma_ascii_fitting(s: Seq<char>, max: int)
    requires
        0 <= max,
        forall|i: int| 0 <= i < s.len() ==> #[trigger] s[i] <= '\u{7f}',
    ensures
        fitting(s, max) == if s.len() < max {
            s.len() as int
        } else {
            max
        },
    decreases s.len(),
{
    if s.len() > 0 {
        assert(s[0] <= '\u{7f}');
        assert(width(s[0]) == 1);
        if max > 0 {
            assert forall|i: int| 0 <= i < s.skip(1).len() implies #[trigger] s.skip(1)[i]
                <= '\u{7f}' by {
                assert(s.skip(1)[i] == s[i + 1]);
            }
            lemma_ascii_fitting(s.skip(1), max - 1);
        }
    }
}

} // verus!
