//! A table keyed by text.

use crate::text::same;
use vstd::prelude::*;
use vstd::string::*;

verus! {

/// Maps texts to values; no key occurs twice.
pub struct Table<V> {
    entries: Vec<(String, V)>,
}

/// Whether no key occurs twice.
pub open spec fn distinct_keys<V>(entries: Seq<(String, V)>) -> bool {
    forall|i: int, j: int|
        0 <= i < j < entries.len() ==> (#[trigger] entries[i]).0@ != (#[trigger] entries[j]).0@
}

/// Whether the key `k` stands at index `i`.
pub open spec fn stands_at<V>(entries: Seq<(String, V)>, k: Seq<char>, i: int) -> bool {
    0 <= i < entries.len() && entries[i].0@ == k
}

/// What the entries map each key to.
pub open spec fn contents<V: View>(entries: Seq<(String, V)>) -> Map<Seq<char>, V::V> {
    Map::new(
        |k: Seq<char>| exists|i: int| stands_at(entries, k, i),
        |k: Seq<char>| entries[choose|i: int| stands_at(entries, k, i)].1@,
    )
}

impl<V: View> View for Table<V> {
    type V = Map<Seq<char>, V::V>;

    closed spec fn view(&self) -> Map<Seq<char>, V::V> {
        contents(self.entries@)
    }
}

proof fn lemma_contents<V: View>(entries: Seq<(String, V)>, i: int)
    requires
        distinct_keys(entries),
        0 <= i < entries.len(),
    ensures
        contents(entries).contains_key(entries[i].0@),
        contents(entries)[entries[i].0@] == entries[i].1@,
{
    let k = entries[i].0@;
    assert(stands_at(entries, k, i));
    let j = choose|j: int| stands_at(entries, k, j);
    assert(i == j);
}

impl<V: View> Table<V> {
    /// No key occurs twice.
    pub closed spec fn well_formed(&self) -> bool {
        distinct_keys(self.entries@)
    }

    pub fn new() -> (r: Self)
        ensures
            r.well_formed(),
            r@ == Map::<Seq<char>, V::V>::empty(),
            r.keys() == Seq::<Seq<char>>::empty(),
    {
        let r: Self = Table { entries: Vec::new() };
        assert(r.keys() =~= Seq::<Seq<char>>::empty());
        assert(r@ =~= Map::<Seq<char>, V::V>::empty()) by {
            assert forall|k: Seq<char>| !r@.contains_key(k) by {
                assert forall|i: int| !stands_at(r.entries@, k, i) by {}
            }
        }
        r
    }

    fn find(&self, k: &str) -> (r: Option<usize>)
        ensures
            match r {
                Some(i) => stands_at(self.entries@, k@, i as int),
                None => forall|i: int| !stands_at(self.entries@, k@, i),
            },
    {
        let mut i: usize = 0;
        while i < self.entries.len()
            invariant
                i <= self.entries.len(),
                forall|j: int| 0 <= j < i ==> !stands_at(self.entries@, k@, j),
            decreases self.entries.len() - i,
        {
            if same(self.entries[i].0.as_str(), k) {
                return Some(i);
            }
            i += 1;
        }
        None
    }

    pub fn get<'a>(&'a self, k: &str) -> (r: Option<&'a V>)
        requires
            self.well_formed(),
        ensures
            match r {
                Some(v) => self@.contains_key(k@) && self@[k@] == v@,
                None => !self@.contains_key(k@),
            },
    {
        match self.find(k) {
            Some(i) => {
                proof {
                    lemma_contents(self.entries@, i as int);
                }
                Some(&self.entries[i].1)
            },
            None => None,
        }
    }

    /// Sets the value of a key.
    pub fn insert(&mut self, k: String, v: V)
        requires
            old(self).well_formed(),
        ensures
            final(self).well_formed(),
            final(self)@ == old(self)@.insert(k@, v@),
            final(self).keys() == if old(self)@.contains_key(k@) {
                old(self).keys()
            } else {
                old(self).keys().push(k@)
            },
    {
        let ghost before = self.entries@;
        match self.find(k.as_str()) {
            Some(i) => {
                self.entries.set(i, (k, v));
                proof {
                    assert(old(self)@.contains_key(k@));
                    assert(self.keys() =~= old(self).keys());
                    let after = self.entries@;
                    assert forall|x: Seq<char>|
                        #![trigger contents(after).contains_key(x)]
                        contents(after).contains_key(x) == (contents(before).contains_key(x) || x
                            == k@) by {
                        if contents(before).contains_key(x) {
                            let j = choose|j: int| stands_at(before, x, j);
                            assert(stands_at(after, x, j));
                        }
                        if contents(after).contains_key(x) {
                            let j = choose|j: int| stands_at(after, x, j);
                            assert(stands_at(before, x, j));
                        }
                        assert(stands_at(after, k@, i as int));
                    }
                    assert forall|x: Seq<char>| #[trigger]
                        contents(after).contains_key(x) implies contents(after)[x] == contents(
                        before,
                    ).insert(k@, v@)[x] by {
                        let j = choose|j: int| stands_at(after, x, j);
                        lemma_contents(after, j);
                        lemma_contents(before, j);
                    }
                    assert(contents(after) =~= contents(before).insert(k@, v@));
                }
            },
            None => {
                self.entries.push((k, v));
                proof {
                    assert(!old(self)@.contains_key(k@));
                    assert(self.keys() =~= old(self).keys().push(k@));
                    let after = self.entries@;
                    let n = before.len() as int;
                    assert forall|i: int, j: int| 0 <= i < j < after.len() implies (
                    #[trigger] after[i]).0@ != (#[trigger] after[j]).0@ by {
                        if j == n {
                            assert(!stands_at(before, k@, i));
                        } else {
                            assert(before[i].0@ != before[j].0@);
                        }
                    }
                    assert forall|x: Seq<char>|
                        #![trigger contents(after).contains_key(x)]
                        contents(after).contains_key(x) == (contents(before).contains_key(x) || x
                            == k@) by {
                        if contents(before).contains_key(x) {
                            let j = choose|j: int| stands_at(before, x, j);
                            assert(stands_at(after, x, j));
                        }
                        if contents(after).contains_key(x) {
                            let j = choose|j: int| stands_at(after, x, j);
                            if j < n {
                                assert(stands_at(before, x, j));
                            }
                        }
                        assert(stands_at(after, k@, n));
                    }
                    assert forall|x: Seq<char>| #[trigger]
                        contents(after).contains_key(x) implies contents(after)[x] == contents(
                        before,
                    ).insert(k@, v@)[x] by {
                        let j = choose|j: int| stands_at(after, x, j);
                        lemma_contents(after, j);
                        if j < n {
                            lemma_contents(before, j);
                        }
                    }
                    assert(contents(after) =~= contents(before).insert(k@, v@));
                }
            },
        }
    }

    /// Takes a key out of the table.
    pub fn remove(&mut self, k: &str) -> (r: Option<V>)
        requires
            old(self).well_formed(),
        ensures
            final(self).well_formed(),
            final(self)@ == old(self)@.remove(k@),
            final(self).keys() == old(self).keys().remove_value(k@),
            match r {
                Some(v) => old(self)@.contains_key(k@) && old(self)@[k@] == v@,
                None => !old(self)@.contains_key(k@),
            },
    {
        let ghost before = self.entries@;
        match self.find(k) {
            Some(i) => {
                proof {
                    lemma_contents(before, i as int);
                    assert forall|a: int, b: int|
                        0 <= a < b < before.remove(i as int).len() implies (
                    #[trigger] before.remove(i as int)[a]).0@ != (#[trigger] before.remove(
                        i as int,
                    )[b]).0@ by {
                        let a1 = if a < i { a } else { a + 1 };
                        let b1 = if b < i { b } else { b + 1 };
                        assert(before[a1].0@ != before[b1].0@);
                    }
                }
                let (_, v): (String, V) = self.entries.remove(i);
                proof {
                    let ks = old(self).keys();
                    ks.index_of_first_ensures(k@);
                    assert(ks[i as int] == k@);
                    let at = ks.index_of_first(k@)->0;
                    assert(before[at].0@ == before[i as int].0@);
                    assert(at == i);
                    assert(self.keys() =~= ks.remove(i as int));
                    let after = self.entries@;
                    assert forall|x: Seq<char>|
                        #![trigger contents(after).contains_key(x)]
                        contents(after).contains_key(x) == (contents(before).contains_key(x) && x
                            != k@) by {
                        if contents(before).contains_key(x) && x != k@ {
                            let j = choose|j: int| stands_at(before, x, j);
                            assert(stands_at(after, x, if j < i { j } else { j - 1 }));
                        }
                        if contents(after).contains_key(x) {
                            let j = choose|j: int| stands_at(after, x, j);
                            let j1 = if j < i { j } else { j + 1 };
                            assert(stands_at(before, x, j1));
                            assert(before[j1].0@ != before[i as int].0@);
                        }
                    }
                    assert forall|x: Seq<char>| #[trigger]
                        contents(after).contains_key(x) implies contents(after)[x] == contents(
                        before,
                    )[x] by {
                        let j = choose|j: int| stands_at(after, x, j);
                        let j1 = if j < i { j } else { j + 1 };
                        lemma_contents(after, j);
                        lemma_contents(before, j1);
                    }
                    assert(contents(after) =~= contents(before).remove(k@));
                }
                Some(v)
            },
            None => {
                proof {
                    let ks = self.keys();
                    ks.index_of_first_ensures(k@);
                    if ks.contains(k@) {
                        let i = choose|i: int| 0 <= i < ks.len() && ks[i] == k@;
                        assert(stands_at(before, k@, i));
                    }
                    assert(contents(before) =~= contents(before).remove(k@));
                }
                None
            },
        }
    }

    /// The keys, in the order in which they came in.
    pub closed spec fn keys(&self) -> Seq<Seq<char>> {
        self.entries@.map_values(|e: (String, V)| e.0@)
    }

    /// The keys are those of the table, each once.
    pub proof fn lemma_keys(&self)
        requires
            self.well_formed(),
        ensures
            self.keys().no_duplicates(),
            forall|k: Seq<char>| self@.contains_key(k) <==> #[trigger] self.keys().contains(k),
    {
        let ks = self.keys();
        assert forall|i: int, j: int|
            0 <= i < ks.len() && 0 <= j < ks.len() && i != j implies ks[i] != ks[j] by {
            if i < j {
                assert(self.entries@[i].0@ != self.entries@[j].0@);
            } else {
                assert(self.entries@[j].0@ != self.entries@[i].0@);
            }
        }
        assert forall|k: Seq<char>| self@.contains_key(k) <==> #[trigger] ks.contains(k) by {
            if self@.contains_key(k) {
                let i = choose|i: int| stands_at(self.entries@, k, i);
                assert(ks[i] == k);
            }
            if ks.contains(k) {
                let i = choose|i: int| 0 <= i < ks.len() && ks[i] == k;
                assert(stands_at(self.entries@, k, i));
            }
        }
    }

    /// The number of entries; the keys are those of the table, each once.
    pub fn len(&self) -> (r: usize)
        requires
            self.well_formed(),
        ensures
            r == self.keys().len(),
            self.keys().no_duplicates(),
            forall|k: Seq<char>| self@.contains_key(k) <==> #[trigger] self.keys().contains(k),
    {
        proof {
            self.lemma_keys();
        }
        self.entries.len()
    }

    /// The entry that came in at place `i`.
    pub fn entry<'a>(&'a self, i: usize) -> (r: (&'a str, &'a V))
        requires
            self.well_formed(),
            i < self.keys().len(),
        ensures
            r.0@ == self.keys()[i as int],
            self@.contains_key(r.0@),
            self@[r.0@] == r.1@,
    {
        proof {
            lemma_contents(self.entries@, i as int);
        }
        (self.entries[i].0.as_str(), &self.entries[i].1)
    }
}


/// Maps pairs of texts to texts.
pub struct PairTable {
    entries: Vec<(String, String, String)>,
}

/// Whether the pair `k` stands at index `i`.
pub open spec fn pair_at(
    entries: Seq<(String, String, String)>,
    k: (Seq<char>, Seq<char>),
    i: int,
) -> bool {
    0 <= i < entries.len() && (entries[i].0@, entries[i].1@) == k
}

/// What the entries map each pair to: the last entry counts.
pub open spec fn pair_contents(entries: Seq<(String, String, String)>) -> Map<
    (Seq<char>, Seq<char>),
    Seq<char>,
>
    decreases entries.len(),
{
    if entries.len() == 0 {
        Map::empty()
    } else {
        let e = entries.last();
        pair_contents(entries.drop_last()).insert((e.0@, e.1@), e.2@)
    }
}

impl View for PairTable {
    type V = Map<(Seq<char>, Seq<char>), Seq<char>>;

    closed spec fn view(&self) -> Map<(Seq<char>, Seq<char>), Seq<char>> {
        pair_contents(self.entries@)
    }
}

proof fn lemma_pair_contents(entries: Seq<(String, String, String)>, k: (Seq<char>, Seq<char>), i: int)
    requires
        0 <= i <= entries.len(),
        i > 0 ==> pair_at(entries, k, i - 1),
        forall|j: int| i <= j < entries.len() ==> !#[trigger] pair_at(entries, k, j),
    ensures
        i == 0 ==> !pair_contents(entries).contains_key(k),
        i > 0 ==> pair_contents(entries).contains_key(k) && pair_contents(entries)[k]
            == entries[i - 1].2@,
    decreases entries.len(),
{
    if entries.len() > 0 {
        let n = entries.len() - 1;
        let front = entries.drop_last();
        if i <= n {
            assert(!pair_at(entries, k, n));
            assert forall|j: int| i <= j < front.len() implies !#[trigger] pair_at(front, k, j) by {
                assert(!pair_at(entries, k, j));
            }
            if i > 0 {
                assert(pair_at(front, k, i - 1));
            }
            lemma_pair_contents(front, k, i);
        }
    }
}

impl PairTable {
    pub fn new() -> (r: Self)
        ensures
            r@ == Map::<(Seq<char>, Seq<char>), Seq<char>>::empty(),
    {
        PairTable { entries: Vec::new() }
    }

    pub fn get<'a>(&'a self, a: &str, b: &str) -> (r: Option<&'a str>)
        ensures
            match r {
                Some(v) => self@.contains_key((a@, b@)) && self@[(a@, b@)] == v@,
                None => !self@.contains_key((a@, b@)),
            },
    {
        let mut i: usize = self.entries.len();
        while i > 0
            invariant
                i <= self.entries.len(),
                forall|j: int|
                    i <= j < self.entries.len() ==> !#[trigger] pair_at(
                        self.entries@,
                        (a@, b@),
                        j,
                    ),
            decreases i,
        {
            if same(self.entries[i - 1].0.as_str(), a) && same(self.entries[i - 1].1.as_str(), b) {
                proof {
                    assert(pair_at(self.entries@, (a@, b@), i - 1));
                    lemma_pair_contents(self.entries@, (a@, b@), i as int);
                }
                return Some(self.entries[i - 1].2.as_str());
            }
            i -= 1;
        }
        proof {
            lemma_pair_contents(self.entries@, (a@, b@), 0);
        }
        None
    }

    /// Sets the value of a pair.
    pub fn insert(&mut self, a: String, b: String, v: String)
        ensures
            final(self)@ == old(self)@.insert((a@, b@), v@),
    {
        let ghost before = self.entries@;
        self.entries.push((a, b, v));
        assert(self.entries@.drop_last() =~= before);
    }
}

} // verus!
