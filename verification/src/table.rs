//! A table of values by text, which can be walked in order.

use crate::text::{owned, text_is};
use vstd::prelude::*;

verus! {

/// Texts but for one of them.
pub open spec fn without(s: Seq<Seq<char>>, x: Seq<char>) -> Seq<Seq<char>> {
    s.filter(|k: Seq<char>| k != x)
}

/// Values, each under a text of its own.
pub struct Table<V> {
    entries: Vec<(String, V)>,
}

impl<V> View for Table<V> {
    type V = Map<Seq<char>, V>;

    /// The value under each text.
    open spec fn view(&self) -> Map<Seq<char>, V> {
        Map::new(
            |k: Seq<char>| self.keys().contains(k),
            |k: Seq<char>| self.values()[self.keys().index_of(k)],
        )
    }
}

impl<V> Table<V> {
    /// The texts, in the order in which the table is walked.
    pub closed spec fn keys(self) -> Seq<Seq<char>> {
        self.entries@.map_values(|e: (String, V)| e.0@)
    }

    /// The values, in the same order.
    pub closed spec fn values(self) -> Seq<V> {
        self.entries@.map_values(|e: (String, V)| e.1)
    }

    /// No text stands in the table twice, and each has a value.
    #[verifier::type_invariant]
    spec fn wf(self) -> bool {
        self.keys().no_duplicates()
    }

    /// An empty table.
    pub fn new() -> (t: Table<V>)
        ensures
            t.keys() == Seq::<Seq<char>>::empty(),
            t.values() == Seq::<V>::empty(),
            t@ == Map::<Seq<char>, V>::empty(),
    {
        let entries: Vec<(String, V)> = Vec::new();
        Table { entries }
    }

    /// The number of entries.
    pub fn len(&self) -> (n: usize)
        ensures
            n == self.keys().len() == self.values().len(),
            self.keys().no_duplicates(),
    {
        proof {
            use_type_invariant(self);
        }
        self.entries.len()
    }

    /// The text at a place of the walk.
    pub fn key_at(&self, i: usize) -> (k: &String)
        requires
            i < self.keys().len(),
        ensures
            k@ == self.keys()[i as int],
    {
        &self.entries[i].0
    }

    /// The value at a place of the walk.
    pub fn value_at(&self, i: usize) -> (v: &V)
        requires
            i < self.keys().len(),
        ensures
            *v == self.values()[i as int],
            self@.contains_key(self.keys()[i as int]),
            self@[self.keys()[i as int]] == *v,
    {
        proof {
            use_type_invariant(self);
        }
        &self.entries[i].1
    }

    /// The place of a text in the walk.
    pub fn find(&self, key: &str) -> (place: Option<usize>)
        ensures
            match place {
                Some(i) => i < self.keys().len() && self.keys()[i as int] == key@,
                None => !self.keys().contains(key@),
            },
    {
        let mut i: usize = 0;
        while i < self.entries.len()
            invariant
                i <= self.entries@.len(),
                forall|k: int| 0 <= k < i ==> self.keys()[k] != key@,
            decreases self.entries.len() - i,
        {
            if text_is(&self.entries[i].0, key) {
                return Some(i);
            }
            i = i + 1;
        }
        None
    }

    /// Whether there is a value under a text.
    pub fn contains_key(&self, key: &str) -> (b: bool)
        ensures
            b == self@.contains_key(key@),
    {
        self.find(key).is_some()
    }

    /// The value under a text.
    pub fn get(&self, key: &str) -> (v: Option<&V>)
        ensures
            match v {
                Some(v) => self@.contains_key(key@) && self@[key@] == *v,
                None => !self@.contains_key(key@),
            },
    {
        match self.find(key) {
            Some(i) => Some(self.value_at(i)),
            None => None,
        }
    }

    /// Puts a value in the place of the one at a place of the walk.
    pub fn set_at(&mut self, i: usize, value: V)
        requires
            i < old(self).keys().len(),
        ensures
            final(self).keys() == old(self).keys(),
            final(self).values() == old(self).values().update(i as int, value),
            final(self)@ == old(self)@.insert(old(self).keys()[i as int], value),
    {
        proof {
            use_type_invariant(&*self);
        }
        let ghost before = *self;
        let mut entries: Vec<(String, V)> = Vec::new();
        std::mem::swap(&mut entries, &mut self.entries);
        let key = owned(&entries[i].0);
        entries.set(i, (key, value));
        let ghost after = Table { entries };
        assert(after.keys() =~= before.keys());
        assert(after.values() =~= before.values().update(i as int, value));
        self.entries = entries;
        assert(self@ =~= before@.insert(before.keys()[i as int], value));
    }

    /// Puts a value under a text; under a new one, at the end of the walk.
    pub fn insert(&mut self, key: String, value: V)
        ensures
            final(self)@ == old(self)@.insert(key@, value),
            old(self)@.contains_key(key@) ==> final(self).keys() == old(self).keys(),
            !old(self)@.contains_key(key@) ==> final(self).keys() == old(self).keys().push(key@),
    {
        proof {
            use_type_invariant(&*self);
        }
        match self.find(&key) {
            Some(i) => {
                self.set_at(i, value);
            },
            None => {
                let ghost before = *self;
                let mut entries: Vec<(String, V)> = Vec::new();
                std::mem::swap(&mut entries, &mut self.entries);
                let ghost k = key@;
                entries.push((key, value));
                let ghost after = Table { entries };
                assert(after.keys() =~= before.keys().push(k));
                assert(after.values() =~= before.values().push(value));
                self.entries = entries;
                proof {
                    let n = before.keys().len() as int;
                    assert(self.keys()[n] == k);
                    assert(self.keys().no_duplicates());
                    assert(self.keys().index_of(k) == n);
                    assert(self@.contains_key(k) && self@[k] == value);
                    assert forall|x: Seq<char>| self.keys().contains(x) implies x == k
                        || before.keys().contains(x) by {
                        let i = self.keys().index_of(x);
                        assert(i < n ==> before.keys()[i] == x);
                    }
                    assert forall|x: Seq<char>| #[trigger] before.keys().contains(x) implies
                        self.keys().contains(x) && self@[x] == before@[x] by {
                        let i = before.keys().index_of(x);
                        assert(self.keys()[i] == x);
                        assert(self@.contains_key(x));
                        assert(self.values()[i] == before.values()[i]);
                    }
                    assert forall|x: Seq<char>| self@.contains_key(x) <==> #[trigger] before@.insert(
                        k,
                        value,
                    ).contains_key(x) by {
                        assert(before.keys().contains(x) || !before.keys().contains(x));
                    }
                    assert(self@ =~= before@.insert(k, value));
                }
            },
        }
    }

    /// Takes out the value under a text.
    pub fn remove(&mut self, key: &str) -> (v: Option<V>)
        ensures
            final(self)@ == old(self)@.remove(key@),
            match v {
                Some(v) => old(self)@.contains_key(key@) && old(self)@[key@] == v,
                None => !old(self)@.contains_key(key@),
            },
            final(self).keys() == without(old(self).keys(), key@),
    {
        proof {
            use_type_invariant(&*self);
        }
        match self.find(key) {
            Some(i) => {
                let ghost before = *self;
                let mut entries: Vec<(String, V)> = Vec::new();
                std::mem::swap(&mut entries, &mut self.entries);
                let entry = entries.remove(i);
                let ghost after = Table { entries };
                assert(after.keys() =~= before.keys().remove(i as int));
                assert(after.values() =~= before.values().remove(i as int));
                self.entries = entries;
                proof {
                    assert(self.keys().no_duplicates());
                    assert forall|x: Seq<char>| x != key@ && #[trigger] before.keys().contains(
                        x,
                    ) implies self.keys().contains(x) && self@[x] == before@[x] by {
                        let j = before.keys().index_of(x);
                        if j < i {
                            assert(self.keys()[j] == x);
                            assert(self.values()[j] == before.values()[j]);
                        } else {
                            assert(self.keys()[j - 1] == x);
                            assert(self.values()[j - 1] == before.values()[j]);
                        }
                        assert(self@.contains_key(x));
                    }
                    assert forall|x: Seq<char>| self.keys().contains(x) implies x != key@
                        && before.keys().contains(x) by {
                        let j = self.keys().index_of(x);
                        assert(before.keys()[if j < i { j } else { j + 1 }] == x);
                    }
                    assert forall|x: Seq<char>| self@.contains_key(x) <==> #[trigger] before@.remove(
                        key@,
                    ).contains_key(x) by {
                        assert(before.keys().contains(x) || !before.keys().contains(x));
                    }
                    assert(self@ =~= before@.remove(key@));
                    lemma_filter_out_one(before.keys(), i as int);
                }
                Some(entry.1)
            },
            None => {
                proof {
                    assert(self@ =~= self@.remove(key@));
                    lemma_filter_out_none(self.keys(), key@);
                }
                None
            },
        }
    }
}

/// Taking out a text that is not among them changes nothing.
pub proof fn lemma_filter_out_none(s: Seq<Seq<char>>, x: Seq<char>)
    requires
        !s.contains(x),
    ensures
        without(s, x) == s,
    decreases s.len(),
{
    reveal(Seq::filter);
    if s.len() > 0 {
        assert(s.last() == s[s.len() - 1]);
        assert forall|y: Seq<char>| s.drop_last().contains(y) implies s.contains(y) by {
            let i = s.drop_last().index_of(y);
            assert(s[i] == y);
        }
        lemma_filter_out_none(s.drop_last(), x);
        assert(s.drop_last().push(s.last()) == s);
    }
}

/// Taking out a text that stands in one place leaves the others as they are.
pub proof fn lemma_filter_out_one(s: Seq<Seq<char>>, i: int)
    requires
        0 <= i < s.len(),
        s.no_duplicates(),
    ensures
        without(s, s[i]) == s.remove(i),
    decreases s.len(),
{
    reveal(Seq::filter);
    let x = s[i];
    if i == s.len() - 1 {
        assert(!s.drop_last().contains(x));
        lemma_filter_out_none(s.drop_last(), x);
        assert(s.remove(i) == s.drop_last());
    } else {
        lemma_filter_out_one(s.drop_last(), i);
        assert(s.remove(i) == s.drop_last().remove(i).push(s.last()));
    }
}

} // verus!
