use vstd::prelude::*;
use crate::names::{find_last, keys_of, lemma_find_last_lookup, lemma_lookup_none, lemma_lookup_some, lemma_lookup_update, lookup};

verus! {

/// A map from canonical names to configurations that remembers the order in
/// which names were first added.
pub struct ConfMap<V> {
    entries: Vec<(String, V)>,
}

impl<V: Copy> View for ConfMap<V> {
    type V = Map<Seq<char>, V>;

    open spec fn view(&self) -> Map<Seq<char>, V> {
        Map::new(|k: Seq<char>| lookup(self.pairs(), k) is Some, |k: Seq<char>| lookup(self.pairs(), k).unwrap())
    }
}

impl<V: Copy> ConfMap<V> {
    /// The entries as (name, configuration) pairs, in order of first insertion.
    pub closed spec fn pairs(&self) -> Seq<(Seq<char>, V)> {
        self.entries@.map_values(|e: (String, V)| (e.0@, e.1))
    }

    /// Each name occurs once.
    pub open spec fn wf(&self) -> bool {
        keys_of(self.pairs()).no_duplicates()
    }

    pub proof fn lemma_pairs_cover(&self)
        requires
            self.wf(),
        ensures
            forall|i: int| 0 <= i < self.pairs().len() ==> #[trigger] self@.contains_key(self.pairs()[i].0) && self@[self.pairs()[i].0] == self.pairs()[i].1,
            forall|k: Seq<char>| #[trigger] self@.contains_key(k) ==> keys_of(self.pairs()).contains(k),
    {
        assert forall|i: int| 0 <= i < self.pairs().len() implies #[trigger] self@.contains_key(self.pairs()[i].0) && self@[self.pairs()[i].0] == self.pairs()[i].1 by {
            let s = self.pairs();
            assert forall|j: int| i < j < s.len() implies s[j].0 != s[i].0 by {
                assert(keys_of(s)[j] != keys_of(s)[i]);
            }
            lemma_find_last_lookup(s, s[i].0, i);
        }
        assert forall|k: Seq<char>| #[trigger] self@.contains_key(k) implies keys_of(self.pairs()).contains(k) by {
            lemma_lookup_some(self.pairs(), k);
        }
    }

    pub fn new() -> (r: ConfMap<V>)
        ensures
            r.wf(),
            r@ == Map::<Seq<char>, V>::empty(),
            r.pairs() == Seq::<(Seq<char>, V)>::empty(),
    {
        let r = ConfMap { entries: Vec::new() };
        assert(r.pairs() =~= Seq::<(Seq<char>, V)>::empty());
        assert(keys_of(r.pairs()) =~= Seq::<Seq<char>>::empty());
        assert(r@ =~= Map::<Seq<char>, V>::empty());
        r
    }

    pub fn len(&self) -> (r: usize)
        ensures
            r == self.pairs().len(),
    {
        self.entries.len()
    }

    pub fn name_at(&self, i: usize) -> (r: &String)
        requires
            i < self.pairs().len(),
        ensures
            r@ == self.pairs()[i as int].0,
    {
        &self.entries[i].0
    }

    pub fn value_at(&self, i: usize) -> (r: V)
        requires
            i < self.pairs().len(),
        ensures
            r == self.pairs()[i as int].1,
    {
        self.entries[i].1
    }

    /// The configuration recorded for `name`, if any.
    pub fn get(&self, name: &String) -> (r: Option<V>)
        ensures
            r == (if self@.contains_key(name@) {
                Some(self@[name@])
            } else {
                None::<V>
            }),
    {
        match find_last(&self.entries, name) {
            Some(i) => {
                proof {
                    lemma_find_last_lookup(self.pairs(), name@, i as int);
                }
                Some(self.entries[i].1)
            },
            None => {
                proof {
                    lemma_lookup_none(self.pairs(), name@);
                }
                None
            },
        }
    }

    /// Sets the configuration of `name`, adding the name at the end if it is new.
    pub fn put(&mut self, name: String, v: V)
        requires
            old(self).wf(),
        ensures
            final(self).wf(),
            final(self)@ == old(self)@.insert(name@, v),
            old(self)@.contains_key(name@) ==> keys_of(final(self).pairs()) == keys_of(old(self).pairs()),
            !old(self)@.contains_key(name@) ==> keys_of(final(self).pairs()) == keys_of(old(self).pairs()).push(name@),
    {
        let ghost before = self.pairs();
        match find_last(&self.entries, &name) {
            Some(i) => {
                proof {
                    lemma_find_last_lookup(before, name@, i as int);
                }
                let ghost k = name@;
                self.entries.set(i, (name, v));
                proof {
                    assert(self.pairs() =~= before.update(i as int, (k, v)));
                    assert forall|k2: Seq<char>| #![auto] lookup(self.pairs(), k2) == if k2 == k {
                        Some(v)
                    } else {
                        lookup(before, k2)
                    } by {
                        lemma_lookup_update(before, i as int, k, v, k2);
                    }
                    lemma_lookup_update(before, i as int, k, v, k);
                    assert(self@ =~= old(self)@.insert(k, v));
                }
            },
            None => {
                proof {
                    lemma_lookup_none(before, name@);
                    lemma_lookup_some(before, name@);
                }
                let ghost k = name@;
                self.entries.push((name, v));
                proof {
                    assert(self.pairs() =~= before.push((k, v)));
                    assert(keys_of(self.pairs()) =~= keys_of(before).push(k));
                    assert forall|k2: Seq<char>| #![auto] lookup(self.pairs(), k2) == if k2 == k {
                        Some(v)
                    } else {
                        lookup(before, k2)
                    } by {
                        assert(self.pairs().drop_last() =~= before);
                    }
                    assert(self@ =~= old(self)@.insert(k, v));
                }
            },
        }
    }
}

} // verus!
