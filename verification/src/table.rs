//! What is remembered of each visitor's address, to slow down those who try too often.

use vstd::prelude::*;
use crate::text::same;

verus! {

/// What is remembered of one visitor: a count and a Unix time in seconds.
#[derive(Clone, Copy, Debug, PartialEq, Eq, Structural)]
pub struct Mark {
    pub count: u32,
    pub time: u64,
}

/// A mark for each of a number of keys.
pub struct Table {
    entries: Vec<(String, Mark)>,
}

impl Table {
    /// No key has two entries.
    pub closed spec fn wf(&self) -> bool {
        forall|i: int, j: int|
            #![trigger self.entries@[i], self.entries@[j]]
            0 <= i < j < self.entries@.len() ==> self.entries@[i].0@ != self.entries@[j].0@
    }

    /// Whether the `i`-th entry is that of the key.
    spec fn at(&self, k: Seq<char>, i: int) -> bool {
        0 <= i < self.entries@.len() && self.entries@[i].0@ == k
    }

    /// The marks by key.
    pub closed spec fn view(&self) -> Map<Seq<char>, Mark> {
        Map::new(
            |k: Seq<char>| exists|i: int| self.at(k, i),
            |k: Seq<char>| self.entries@[choose|i: int| self.at(k, i)].1,
        )
    }

    /// The entry of a key is its mark.
    proof fn lemma_entry(&self, i: int)
        requires
            self.wf(),
            0 <= i < self.entries@.len(),
        ensures
            self@.contains_key(self.entries@[i].0@),
            self@[self.entries@[i].0@] == self.entries@[i].1,
    {
        let k = self.entries@[i].0@;
        assert(self.at(k, i));
        let j = choose|j: int| self.at(k, j);
        assert(self.at(k, j));
        assert(i == j);
    }

    /// A table with no marks.
    pub fn new() -> (r: Self)
        ensures
            r.wf(),
            r@ == Map::<Seq<char>, Mark>::empty(),
    {
        let r = Table { entries: Vec::new() };
        assert(r@ =~= Map::empty());
        r
    }

    /// Where the entry of a key stands.
    fn position(&self, key: &str) -> (r: Option<usize>)
        ensures
            match r {
                Some(i) => self.at(key@, i as int),
                None => forall|i: int| !self.at(key@, i),
            },
    {
        let mut i: usize = 0;
        while i < self.entries.len()
            invariant
                i <= self.entries.len(),
                forall|k: int| 0 <= k < i ==> !self.at(key@, k),
            decreases self.entries.len() - i,
        {
            if same(self.entries[i].0.as_str(), key) {
                return Some(i);
            }
            i = i + 1;
        }
        None
    }

    /// The mark of a key.
    pub fn get(&self, key: &str) -> (r: Option<Mark>)
        requires
            self.wf(),
        ensures
            r == self@.get(key@),
    {
        match self.position(key) {
            Some(i) => {
                proof {
                    self.lemma_entry(i as int);
                }
                Some(self.entries[i].1)
            },
            None => None,
        }
    }

    /// The number of keys that have a mark.
    pub fn len(&self) -> (r: usize)
        requires
            self.wf(),
        ensures
            r == self@.dom().len(),
            self@.dom().finite(),
    {
        proof {
            let keys = Seq::new(self.entries@.len(), |i: int| self.entries@[i].0@);
            assert(keys.no_duplicates());
            keys.unique_seq_to_set();
            vstd::seq_lib::seq_to_set_is_finite(keys);
            assert forall|k: Seq<char>| self@.dom().contains(k) <==> keys.to_set().contains(k) by {
                if self@.dom().contains(k) {
                    let i = choose|i: int| self.at(k, i);
                    assert(keys[i] == k);
                }
                if keys.contains(k) {
                    let i = choose|i: int| 0 <= i < keys.len() && keys[i] == k;
                    assert(self.at(k, i));
                }
            }
            assert(self@.dom() =~= keys.to_set());
        }
        self.entries.len()
    }

    /// Gives a key a mark.
    pub fn insert(&mut self, key: &str, mark: Mark)
        requires
            old(self).wf(),
        ensures
            final(self).wf(),
            final(self)@ == old(self)@.insert(key@, mark),
    {
        let ghost before = *self;
        match self.position(key) {
            Some(i) => {
                let k: String = self.entries[i].0.clone();
                self.entries.set(i, (k, mark));
                proof {
                    assert(self.wf());
                    assert(before.at(key@, i as int));
                    assert forall|x: Seq<char>|
                        #![trigger self@.dom().contains(x)]
                        #![trigger before@.dom().contains(x)]
                        self@.dom().contains(x) <==> before@.dom().contains(x) by {
                        if self@.contains_key(x) {
                            let j = choose|j: int| self.at(x, j);
                            assert(before.at(x, j));
                        }
                        if before@.contains_key(x) {
                            let j = choose|j: int| before.at(x, j);
                            assert(self.at(x, j));
                        }
                    }
                    assert forall|x: Seq<char>| #[trigger] self@.contains_key(x) implies self@[x]
                        == before@.insert(key@, mark)[x] by {
                        let j = choose|j: int| self.at(x, j);
                        self.lemma_entry(j);
                        before.lemma_entry(j);
                    }
                    assert(before@.contains_key(key@));
                    assert(self@ =~= before@.insert(key@, mark));
                }
            },
            None => {
                self.entries.push((key.to_owned(), mark));
                proof {
                    let n = before.entries@.len() as int;
                    assert forall|i: int, j: int| 0 <= i < j < self.entries@.len() implies (
                    #[trigger] self.entries@[i]).0@ != (#[trigger] self.entries@[j]).0@ by {
                        if j == n {
                            assert(!before.at(key@, i));
                        } else {
                            assert(before.entries@[i].0@ != before.entries@[j].0@);
                        }
                    }
                    assert(self.at(key@, n));
                    assert forall|x: Seq<char>| self@.contains_key(x) <==> (before@.contains_key(x)
                        || x == key@) by {
                        if self@.contains_key(x) {
                            let j = choose|j: int| self.at(x, j);
                            assert(j < n ==> before.at(x, j));
                        }
                        if before@.contains_key(x) {
                            let j = choose|j: int| before.at(x, j);
                            assert(self.at(x, j));
                        }
                    }
                    assert forall|x: Seq<char>| #[trigger] self@.contains_key(x) implies self@[x]
                        == before@.insert(key@, mark)[x] by {
                        let j = choose|j: int| self.at(x, j);
                        self.lemma_entry(j);
                        if j < n {
                            before.lemma_entry(j);
                            assert(!before.at(key@, j));
                        }
                    }
                    assert(self@ =~= before@.insert(key@, mark));
                }
            },
        }
    }

    /// Forgets a key.
    pub fn remove(&mut self, key: &str)
        requires
            old(self).wf(),
        ensures
            final(self).wf(),
            final(self)@ == old(self)@.remove(key@),
    {
        let ghost before = *self;
        match self.position(key) {
            Some(i) => {
                self.entries.remove(i);
                proof {
                    let gone = i as int;
                    assert forall|a: int, b: int| 0 <= a < b < self.entries@.len() implies (
                    #[trigger] self.entries@[a]).0@ != (#[trigger] self.entries@[b]).0@ by {
                        let a2 = if a < gone { a } else { a + 1 };
                        let b2 = if b < gone { b } else { b + 1 };
                        assert(before.entries@[a2].0@ != before.entries@[b2].0@);
                    }
                    assert forall|x: Seq<char>| self@.contains_key(x) <==> (before@.contains_key(x)
                        && x != key@) by {
                        if self@.contains_key(x) {
                            let j = choose|j: int| self.at(x, j);
                            let j2 = if j < gone { j } else { j + 1 };
                            assert(before.at(x, j2));
                            assert(before.entries@[j2].0@ != before.entries@[gone].0@);
                        }
                        if before@.contains_key(x) && x != key@ {
                            let j = choose|j: int| before.at(x, j);
                            assert(self.at(x, if j < gone { j } else { j - 1 }));
                        }
                    }
                    assert forall|x: Seq<char>| #[trigger] self@.contains_key(x) implies self@[x]
                        == before@[x] by {
                        let j = choose|j: int| self.at(x, j);
                        self.lemma_entry(j);
                        before.lemma_entry(if j < gone { j } else { j + 1 });
                    }
                    assert(self@ =~= before@.remove(key@));
                }
            },
            None => {
                assert(self@ =~= before@.remove(key@)) by {
                    assert(!before@.contains_key(key@));
                }
            },
        }
    }

    /// Forgets the keys whose time lies `slack` seconds back or more.
    pub fn retain(&mut self, slack: u64, now: u64)
        requires
            old(self).wf(),
        ensures
            final(self).wf(),
            final(self)@ == recent(old(self)@, slack as int, now as int),
    {
        let ghost before = *self;
        let mut i: usize = 0;
        let mut kept: Vec<(String, Mark)> = Vec::new();
        let ghost mut from: Seq<int> = Seq::empty();
        while i < self.entries.len()
            invariant
                i <= self.entries.len(),
                *self == before,
                from.len() == kept@.len(),
                forall|a: int|
                    0 <= a < from.len() ==> 0 <= #[trigger] from[a] < i && kept@[a].0@
                        == before.entries@[from[a]].0@ && kept@[a].1 == before.entries@[from[a]].1
                        && kept@[a].1.time + slack > now,
                forall|a: int, b: int|
                    #![trigger from[a], from[b]]
                    0 <= a < b < from.len() ==> from[a] < from[b],
                forall|k: int|
                    0 <= k < i && (#[trigger] before.entries@[k]).1.time + slack > now
                        ==> from.contains(k),
            decreases self.entries.len() - i,
        {
            let m: Mark = self.entries[i].1;
            if m.time as u128 + slack as u128 > now as u128 {
                let ghost old_from = from;
                kept.push((self.entries[i].0.clone(), m));
                proof {
                    from = from.push(i as int);
                    assert forall|k: int|
                        0 <= k < i + 1 && (#[trigger] before.entries@[k]).1.time + slack
                            > now implies from.contains(k) by {
                        if k < i {
                            let a = choose|a: int| 0 <= a < old_from.len() && old_from[a] == k;
                            assert(from[a] == k);
                        } else {
                            assert(from[old_from.len() as int] == k);
                        }
                    }
                }
            }
            i = i + 1;
        }
        self.entries = kept;
        proof {
            let goal = recent(before@, slack as int, now as int);
            assert forall|a: int, b: int| 0 <= a < b < self.entries@.len() implies (
            #[trigger] self.entries@[a]).0@ != (#[trigger] self.entries@[b]).0@ by {
                assert(from[a] < from[b]);
                assert(before.entries@[from[a]].0@ != before.entries@[from[b]].0@);
            }
            assert forall|x: Seq<char>| self@.contains_key(x) <==> goal.contains_key(x) by {
                if self@.contains_key(x) {
                    let a = choose|a: int| self.at(x, a);
                    before.lemma_entry(from[a]);
                }
                if goal.contains_key(x) {
                    let k = choose|k: int| before.at(x, k);
                    before.lemma_entry(k);
                    assert(from.contains(k));
                    let a = choose|a: int| 0 <= a < from.len() && from[a] == k;
                    assert(self.at(x, a));
                }
            }
            assert forall|x: Seq<char>| #[trigger] self@.contains_key(x) implies self@[x]
                == goal[x] by {
                let a = choose|a: int| self.at(x, a);
                self.lemma_entry(a);
                before.lemma_entry(from[a]);
            }
            assert(self@ =~= goal);
        }
    }
}

/// The marks whose time lies less than `slack` seconds back.
pub open spec fn recent(m: Map<Seq<char>, Mark>, slack: int, now: int) -> Map<Seq<char>, Mark> {
    Map::new(|k: Seq<char>| m.contains_key(k) && m[k].time + slack > now, |k: Seq<char>| m[k])
}

/// Of a table that is thinned out, exactly the marks that are not older than the slack are left, as
/// they were.
pub proof fn law_recent_marks_stay(m: Map<Seq<char>, Mark>, slack: int, now: int, key: Seq<char>)
    ensures
        m.contains_key(key) && m[key].time + slack > now ==> recent(m, slack, now).contains_key(key)
            && recent(m, slack, now)[key] == m[key],
        !m.contains_key(key) || m[key].time + slack <= now ==> !recent(m, slack, now).contains_key(
            key,
        ),
{
}

} // verus!
