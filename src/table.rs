use vstd::prelude::*;

verus! {

/// A table from strings to strings, such as card keys to stored fingerprints.
/// Entries keep their order of insertion; a key stands in at most one entry.
pub struct StringTable {
    entries: Vec<(String, String)>,
    model: Ghost<Map<Seq<char>, Seq<char>>>,
}

/// The map that a list of pairs gives when they are inserted in order.
pub open spec fn map_of_pairs(pairs: Seq<(Seq<char>, Seq<char>)>) -> Map<Seq<char>, Seq<char>>
    decreases pairs.len(),
{
    if pairs.len() == 0 {
        Map::empty()
    } else {
        map_of_pairs(pairs.drop_last()).insert(pairs.last().0, pairs.last().1)
    }
}

pub open spec fn pair_views(v: Seq<(String, String)>) -> Seq<(Seq<char>, Seq<char>)> {
    v.map_values(|p: (String, String)| (p.0@, p.1@))
}

impl View for StringTable {
    type V = Map<Seq<char>, Seq<char>>;

    closed spec fn view(&self) -> Map<Seq<char>, Seq<char>> {
        self.model@
    }
}

impl StringTable {
    pub closed spec fn wf(&self) -> bool {
        &&& forall|i: int, j: int|
            0 <= i < j < self.entries.len() ==> #[trigger] self.entries@[i].0@
                != #[trigger] self.entries@[j].0@
        &&& forall|i: int|
            0 <= i < self.entries.len() ==> #[trigger] self.model@.contains_key(
                self.entries@[i].0@,
            ) && self.model@[self.entries@[i].0@] == self.entries@[i].1@
        &&& forall|k: Seq<char>| #[trigger]
            self.model@.contains_key(k) ==> exists|i: int|
                0 <= i < self.entries.len() && #[trigger] self.entries@[i].0@ == k
    }

    /// The entries, in order of insertion.
    pub closed spec fn pairs(&self) -> Seq<(Seq<char>, Seq<char>)> {
        pair_views(self.entries@)
    }

    pub proof fn lemma_pairs(&self)
        requires
            self.wf(),
        ensures
            self.pairs().len() == self.len_spec(),
            forall|i: int|
                0 <= i < self.pairs().len() ==> #[trigger] self@.contains_key(self.pairs()[i].0)
                    && self@[self.pairs()[i].0] == self.pairs()[i].1,
            forall|k: Seq<char>| #[trigger]
                self@.contains_key(k) ==> exists|i: int|
                    0 <= i < self.pairs().len() && #[trigger] self.pairs()[i].0 == k,
            forall|i: int, j: int|
                0 <= i < j < self.pairs().len() ==> #[trigger] self.pairs()[i].0
                    != #[trigger] self.pairs()[j].0,
    {
        assert forall|k: Seq<char>| #[trigger] self@.contains_key(k) implies exists|i: int|
            0 <= i < self.pairs().len() && #[trigger] self.pairs()[i].0 == k by {
            let i = choose|i: int| 0 <= i < self.entries.len() && #[trigger] self.entries@[i].0@ == k;
            assert(self.pairs()[i].0 == k);
        }
        assert forall|i: int, j: int|
            0 <= i < j < self.pairs().len() implies #[trigger] self.pairs()[i].0
                != #[trigger] self.pairs()[j].0 by {
            assert(self.entries@[i].0@ != self.entries@[j].0@);
        }
    }

    pub closed spec fn len_spec(&self) -> nat {
        self.entries.len() as nat
    }

    pub fn new() -> (r: Self)
        ensures
            r.wf(),
            r@ == Map::<Seq<char>, Seq<char>>::empty(),
    {
        StringTable { entries: Vec::new(), model: Ghost(Map::empty()) }
    }

    pub fn len(&self) -> (r: usize)
        requires
            self.wf(),
        ensures
            r == self.len_spec(),
            r == self@.len(),
    {
        proof {
            self.lemma_len();
        }
        self.entries.len()
    }

    proof fn lemma_len(&self)
        requires
            self.wf(),
        ensures
            self.entries.len() == self@.len(),
        decreases self.entries.len(),
    {
        let keys = Seq::new(self.entries.len() as nat, |i: int| self.entries@[i].0@);
        assert(keys.no_duplicates()) by {
            assert forall|i: int, j: int|
                0 <= i < keys.len() && 0 <= j < keys.len() && i != j implies keys[i]
                != keys[j] by {
                if i < j {
                    assert(self.entries@[i].0@ != self.entries@[j].0@);
                } else {
                    assert(self.entries@[j].0@ != self.entries@[i].0@);
                }
            }
        }
        assert(self@.dom() =~= keys.to_set()) by {
            assert forall|k: Seq<char>| self@.dom().contains(k) implies keys.to_set().contains(
                k,
            ) by {
                let i = choose|i: int|
                    0 <= i < self.entries.len() && #[trigger] self.entries@[i].0@ == k;
                assert(keys[i] == k);
            }
            assert forall|k: Seq<char>| keys.to_set().contains(k) implies self@.dom().contains(
                k,
            ) by {
                let i = choose|i: int| 0 <= i < keys.len() && keys[i] == k;
                assert(self.model@.contains_key(self.entries@[i].0@));
            }
        }
        keys.unique_seq_to_set();
    }

    /// The entry at `i`, in order of insertion.
    pub fn entry(&self, i: usize) -> (r: (&String, &String))
        requires
            self.wf(),
            i < self.len_spec(),
        ensures
            r.0@ == self.pairs()[i as int].0,
            r.1@ == self.pairs()[i as int].1,
    {
        let e = &self.entries[i];
        (&e.0, &e.1)
    }

    fn find(&self, key: &String) -> (r: Option<usize>)
        requires
            self.wf(),
        ensures
            match r {
                Some(i) => i < self.entries.len() && self.entries@[i as int].0@ == key@,
                None => !self@.contains_key(key@),
            },
    {
        let mut i: usize = 0;
        while i < self.entries.len()
            invariant
                self.wf(),
                i <= self.entries.len(),
                forall|j: int| 0 <= j < i ==> self.entries@[j].0@ != key@,
            decreases self.entries.len() - i,
        {
            if self.entries[i].0 == *key {
                return Some(i);
            }
            i = i + 1;
        }
        None
    }

    pub fn get(&self, key: &String) -> (r: Option<&String>)
        requires
            self.wf(),
        ensures
            match r {
                Some(v) => self@.contains_key(key@) && self@[key@] == v@,
                None => !self@.contains_key(key@),
            },
    {
        match self.find(key) {
            Some(i) => {
                assert(self.model@.contains_key(self.entries@[i as int].0@));
                Some(&self.entries[i].1)
            },
            None => None,
        }
    }

    pub fn contains(&self, key: &String) -> (r: bool)
        requires
            self.wf(),
        ensures
            r == self@.contains_key(key@),
    {
        self.find(key).is_some()
    }

    /// Sets the fingerprint of `key`, replacing any earlier one.
    pub fn insert(&mut self, key: String, value: String)
        requires
            old(self).wf(),
        ensures
            final(self).wf(),
            final(self)@ == old(self)@.insert(key@, value@),
    {
        let ghost m = self.model@.insert(key@, value@);
        match self.find(&key) {
            Some(i) => {
                self.entries.set(i, (key, value));
                self.model = Ghost(m);
                assert forall|j: int|
                    0 <= j < self.entries.len() implies #[trigger] self.model@.contains_key(
                    self.entries@[j].0@,
                ) && self.model@[self.entries@[j].0@] == self.entries@[j].1@ by {
                    if j != i {
                        assert(old(self).model@.contains_key(old(self).entries@[j].0@));
                        if j < i {
                            assert(old(self).entries@[j].0@ != old(self).entries@[i as int].0@);
                        } else {
                            assert(old(self).entries@[i as int].0@ != old(self).entries@[j].0@);
                        }
                    }
                }
                assert forall|a: int, b: int|
                    0 <= a < b < self.entries.len() implies #[trigger] self.entries@[a].0@
                    != #[trigger] self.entries@[b].0@ by {
                    assert(old(self).entries@[a].0@ != old(self).entries@[b].0@);
                }
                assert forall|k: Seq<char>| #[trigger] self.model@.contains_key(k) implies exists|
                    j: int,
                | 0 <= j < self.entries.len() && #[trigger] self.entries@[j].0@ == k by {
                    if k != self.entries@[i as int].0@ {
                        let j = choose|j: int|
                            0 <= j < old(self).entries.len() && #[trigger] old(
                                self,
                            ).entries@[j].0@ == k;
                        assert(self.entries@[j].0@ == k);
                    }
                }
            },
            None => {
                self.entries.push((key, value));
                self.model = Ghost(m);
                assert forall|j: int|
                    0 <= j < self.entries.len() implies #[trigger] self.model@.contains_key(
                    self.entries@[j].0@,
                ) && self.model@[self.entries@[j].0@] == self.entries@[j].1@ by {
                    if j < self.entries.len() - 1 {
                        assert(old(self).model@.contains_key(old(self).entries@[j].0@));
                    }
                }
                assert forall|a: int, b: int|
                    0 <= a < b < self.entries.len() implies #[trigger] self.entries@[a].0@
                    != #[trigger] self.entries@[b].0@ by {
                    assert(old(self).model@.contains_key(old(self).entries@[a].0@));
                    if b < self.entries.len() - 1 {
                        assert(old(self).entries@[a].0@ != old(self).entries@[b].0@);
                    }
                }
                assert forall|k: Seq<char>| #[trigger] self.model@.contains_key(k) implies exists|
                    j: int,
                | 0 <= j < self.entries.len() && #[trigger] self.entries@[j].0@ == k by {
                    if k != self.entries@[self.entries.len() - 1].0@ {
                        let j = choose|j: int|
                            0 <= j < old(self).entries.len() && #[trigger] old(
                                self,
                            ).entries@[j].0@ == k;
                        assert(self.entries@[j].0@ == k);
                    }
                }
            },
        }
    }

    /// Drops the fingerprint of `key`, if there is one.
    pub fn remove(&mut self, key: &String)
        requires
            old(self).wf(),
        ensures
            final(self).wf(),
            final(self)@ == old(self)@.remove(key@),
    {
        let ghost m = self.model@.remove(key@);
        match self.find(key) {
            Some(i) => {
                self.entries.remove(i);
                self.model = Ghost(m);
                assert forall|j: int|
                    0 <= j < self.entries.len() implies #[trigger] self.model@.contains_key(
                    self.entries@[j].0@,
                ) && self.model@[self.entries@[j].0@] == self.entries@[j].1@ by {
                    if j < i {
                        assert(old(self).model@.contains_key(old(self).entries@[j].0@));
                        assert(old(self).entries@[j].0@ != old(self).entries@[i as int].0@);
                    } else {
                        assert(old(self).model@.contains_key(old(self).entries@[j + 1].0@));
                        assert(old(self).entries@[j + 1].0@ != old(
                            self,
                        ).entries@[i as int].0@);
                    }
                }
                assert forall|a: int, b: int|
                    0 <= a < b < self.entries.len() implies #[trigger] self.entries@[a].0@
                    != #[trigger] self.entries@[b].0@ by {
                    if b < i {
                        assert(old(self).entries@[a].0@ != old(self).entries@[b].0@);
                    } else if a < i {
                        assert(old(self).entries@[a].0@ != old(self).entries@[b + 1].0@);
                    } else {
                        assert(old(self).entries@[a + 1].0@ != old(self).entries@[b + 1].0@);
                    }
                }
                assert forall|k: Seq<char>| #[trigger] self.model@.contains_key(k) implies exists|
                    j: int,
                | 0 <= j < self.entries.len() && #[trigger] self.entries@[j].0@ == k by {
                    let j = choose|j: int|
                        0 <= j < old(self).entries.len() && #[trigger] old(self).entries@[j].0@
                            == k;
                    if j < i {
                        assert(self.entries@[j].0@ == k);
                    } else {
                        assert(self.entries@[j - 1].0@ == k);
                    }
                }
            },
            None => {
                assert(m =~= self.model@);
            },
        }
    }

    /// A table holding `pairs` inserted in order: a later pair wins over an
    /// earlier one with the same key.
    pub fn from_pairs(pairs: &Vec<(String, String)>) -> (r: Self)
        ensures
            r.wf(),
            r@ == map_of_pairs(pair_views(pairs@)),
    {
        let mut t = StringTable::new();
        let mut i: usize = 0;
        while i < pairs.len()
            invariant
                i <= pairs.len(),
                t.wf(),
                t@ == map_of_pairs(pair_views(pairs@.subrange(0, i as int))),
            decreases pairs.len() - i,
        {
            let k = pairs[i].0.clone();
            let v = pairs[i].1.clone();
            t.insert(k, v);
            proof {
                let s = pair_views(pairs@.subrange(0, i + 1));
                assert(s.drop_last() =~= pair_views(pairs@.subrange(0, i as int)));
            }
            i = i + 1;
        }
        assert(pairs@.subrange(0, pairs.len() as int) =~= pairs@);
        t
    }

    /// The entries as pairs, in order of insertion.
    pub fn to_pairs(&self) -> (r: Vec<(String, String)>)
        requires
            self.wf(),
        ensures
            pair_views(r@) == self.pairs(),
    {
        let mut r: Vec<(String, String)> = Vec::new();
        let mut i: usize = 0;
        while i < self.entries.len()
            invariant
                i <= self.entries.len(),
                r.len() == i,
                forall|j: int|
                    0 <= j < i ==> #[trigger] r@[j].0@ == self.entries@[j].0@ && r@[j].1@
                        == self.entries@[j].1@,
            decreases self.entries.len() - i,
        {
            let a = self.entries[i].0.clone();
            let b = self.entries[i].1.clone();
            r.push((a, b));
            i = i + 1;
        }
        assert(pair_views(r@) =~= pair_views(self.entries@));
        r
    }

    /// The entries of `self` that `other` does not replace, with all entries
    /// of `other`.
    pub fn merged_with(&self, other: &StringTable) -> (r: StringTable)
        requires
            self.wf(),
            other.wf(),
        ensures
            r.wf(),
            r@ == self@.union_prefer_right(other@),
    {
        let mut t = StringTable::new();
        let mut i: usize = 0;
        while i < self.entries.len()
            invariant
                self.wf(),
                t.wf(),
                i <= self.entries.len(),
                forall|k: Seq<char>|
                    #[trigger] t@.contains_key(k) <==> exists|j: int|
                        0 <= j < i && #[trigger] self.entries@[j].0@ == k,
                forall|k: Seq<char>| #[trigger] t@.contains_key(k) ==> t@[k] == self@[k],
            decreases self.entries.len() - i,
        {
            let k = self.entries[i].0.clone();
            let v = self.entries[i].1.clone();
            assert(self.model@.contains_key(self.entries@[i as int].0@));
            t.insert(k, v);
            i = i + 1;
            assert forall|k: Seq<char>| #[trigger] t@.contains_key(k) implies exists|j: int|
                0 <= j < i && #[trigger] self.entries@[j].0@ == k by {
                if k != self.entries@[i - 1].0@ {
                    let j = choose|j: int|
                        0 <= j < i - 1 && #[trigger] self.entries@[j].0@ == k;
                }
            }
        }
        assert(t@ =~= self@);
        let mut i: usize = 0;
        while i < other.entries.len()
            invariant
                other.wf(),
                t.wf(),
                i <= other.entries.len(),
                forall|k: Seq<char>|
                    #[trigger] t@.contains_key(k) <==> (self@.contains_key(k) || exists|j: int|
                        0 <= j < i && #[trigger] other.entries@[j].0@ == k),
                forall|k: Seq<char>|
                    #[trigger] t@.contains_key(k) ==> t@[k] == if exists|j: int|
                        0 <= j < i && #[trigger] other.entries@[j].0@ == k {
                        other@[k]
                    } else {
                        self@[k]
                    },
            decreases other.entries.len() - i,
        {
            let k = other.entries[i].0.clone();
            let v = other.entries[i].1.clone();
            assert(other.model@.contains_key(other.entries@[i as int].0@));
            t.insert(k, v);
            i = i + 1;
            assert forall|k: Seq<char>| #[trigger]
                t@.contains_key(k) implies (self@.contains_key(k) || exists|j: int|
                0 <= j < i && #[trigger] other.entries@[j].0@ == k) by {
                if k == other.entries@[i - 1].0@ {
                    assert(other.entries@[i - 1].0@ == k);
                }
            }
            assert forall|k: Seq<char>| #[trigger]
                t@.contains_key(k) implies t@[k] == if exists|j: int|
                0 <= j < i && #[trigger] other.entries@[j].0@ == k {
                other@[k]
            } else {
                self@[k]
            } by {
                if k == other.entries@[i - 1].0@ {
                    assert(other.entries@[i - 1].0@ == k);
                } else if exists|j: int| 0 <= j < i && #[trigger] other.entries@[j].0@ == k {
                    let j = choose|j: int| 0 <= j < i && #[trigger] other.entries@[j].0@ == k;
                    assert(j < i - 1);
                }
            }
            assert forall|k: Seq<char>|
                (self@.contains_key(k) || exists|j: int|
                    0 <= j < i && #[trigger] other.entries@[j].0@ == k) implies #[trigger]
                t@.contains_key(k) by {
                if exists|j: int| 0 <= j < i && #[trigger] other.entries@[j].0@ == k {
                    let j = choose|j: int| 0 <= j < i && #[trigger] other.entries@[j].0@ == k;
                    assert(other.entries@[j].0@ == k);
                }
            }
        }
        assert(t@ =~= self@.union_prefer_right(other@));
        t
    }
}

} // verus!
