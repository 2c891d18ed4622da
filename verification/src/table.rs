//! A small table keyed by a global id, kept as a list of (id, value)
//! entries in which no id occurs twice.

use vstd::prelude::*;

verus! {

/// Values keyed by a global id.
pub struct Table<T> {
    entries: Vec<(u32, T)>,
}

/// The map an entry list describes; a later entry for an id wins.
pub open spec fn keyed_map<T>(s: Seq<(u32, T)>) -> Map<u32, T>
    decreases s.len(),
{
    if s.len() == 0 {
        Map::empty()
    } else {
        keyed_map(s.drop_last()).insert(s.last().0, s.last().1)
    }
}

/// No two entries share an id.
pub open spec fn distinct_keys<T>(s: Seq<(u32, T)>) -> bool {
    forall|i: int, j: int| 0 <= i < j < s.len() ==> s[i].0 != s[j].0
}

/// With distinct ids, the entries are exactly the pairs of the map.
proof fn lemma_keyed_map<T>(s: Seq<(u32, T)>)
    requires
        distinct_keys(s),
    ensures
        forall|e: (u32, T)| #[trigger]
            s.contains(e) <==> (keyed_map(s).contains_key(e.0) && keyed_map(s)[e.0] == e.1),
        forall|k: u32| #[trigger]
            keyed_map(s).contains_key(k) ==> exists|i: int| 0 <= i < s.len() && s[i].0 == k,
    decreases s.len(),
{
    if s.len() > 0 {
        let t = s.drop_last();
        assert(distinct_keys(t));
        lemma_keyed_map(t);
        assert forall|e: (u32, T)| #[trigger]
            s.contains(e) <==> (keyed_map(s).contains_key(e.0) && keyed_map(s)[e.0] == e.1) by {
            if s.contains(e) {
                let k = choose|k: int| 0 <= k < s.len() && s[k] == e;
                if k < t.len() {
                    assert(t[k] == e);
                    assert(t.contains(e));
                    assert(s[k].0 != s[s.len() - 1].0);
                }
            }
            if keyed_map(s).contains_key(e.0) && keyed_map(s)[e.0] == e.1 {
                if e.0 == s.last().0 {
                    assert(s[s.len() - 1] == e);
                } else {
                    assert(t.contains(e));
                    let k = choose|k: int| 0 <= k < t.len() && t[k] == e;
                    assert(s[k] == e);
                }
            }
        }
        assert forall|k: u32| #[trigger]
            keyed_map(s).contains_key(k) implies exists|i: int| 0 <= i < s.len() && s[i].0 == k by {
            if k == s.last().0 {
                assert(s[s.len() - 1].0 == k);
            } else {
                assert(keyed_map(t).contains_key(k));
                let i = choose|i: int| 0 <= i < t.len() && t[i].0 == k;
                assert(s[i].0 == k);
            }
        }
    }
}

proof fn lemma_keyed_map_update<T>(s: Seq<(u32, T)>, i: int, v: T)
    requires
        0 <= i < s.len(),
        distinct_keys(s),
    ensures
        keyed_map(s.update(i, (s[i].0, v))) =~= keyed_map(s).insert(s[i].0, v),
        distinct_keys(s.update(i, (s[i].0, v))),
    decreases s.len(),
{
    let u = s.update(i, (s[i].0, v));
    if i == s.len() - 1 {
        assert(u.drop_last() =~= s.drop_last());
    } else {
        assert(u.drop_last() =~= s.drop_last().update(i, (s[i].0, v)));
        assert(distinct_keys(s.drop_last()));
        lemma_keyed_map_update(s.drop_last(), i, v);
        assert(s[i].0 != s.last().0);
    }
}

proof fn lemma_keyed_map_remove<T>(s: Seq<(u32, T)>, i: int)
    requires
        0 <= i < s.len(),
        distinct_keys(s),
    ensures
        keyed_map(s.remove(i)) =~= keyed_map(s).remove(s[i].0),
        distinct_keys(s.remove(i)),
    decreases s.len(),
{
    let r = s.remove(i);
    if i == s.len() - 1 {
        assert(r =~= s.drop_last());
        lemma_keyed_map(s.drop_last());
        assert(!keyed_map(s.drop_last()).contains_key(s[i].0)) by {
            if keyed_map(s.drop_last()).contains_key(s[i].0) {
                let j = choose|j: int| 0 <= j < s.drop_last().len() && s.drop_last()[j].0 == s[i].0;
                assert(s[j].0 == s[i].0);
            }
        }
        assert(distinct_keys(s.drop_last()));
    } else {
        assert(r.drop_last() =~= s.drop_last().remove(i));
        assert(r.last() == s.last());
        assert(distinct_keys(s.drop_last()));
        lemma_keyed_map_remove(s.drop_last(), i);
        assert(s[i].0 != s.last().0);
        assert forall|a: int, b: int| 0 <= a < b < r.len() implies r[a].0 != r[b].0 by {
            let sa = if a < i {
                a
            } else {
                a + 1
            };
            let sb = if b < i {
                b
            } else {
                b + 1
            };
            assert(r[a] == s[sa]);
            assert(r[b] == s[sb]);
        }
    }
}

impl<T> View for Table<T> {
    type V = Map<u32, T>;

    closed spec fn view(&self) -> Map<u32, T> {
        keyed_map(self.entries@)
    }
}

impl<T> Table<T> {
    #[verifier::type_invariant]
    spec fn inv(self) -> bool {
        distinct_keys(self.entries@)
    }

    /// The ids, in the order the table keeps its entries.
    pub closed spec fn key_order(&self) -> Seq<u32> {
        self.entries@.map_values(|e: (u32, T)| e.0)
    }

    /// An empty table.
    pub fn new() -> (r: Table<T>)
        ensures
            r@ == Map::<u32, T>::empty(),
    {
        Table { entries: Vec::new() }
    }

    fn position(&self, k: u32) -> (r: Option<usize>)
        ensures
            match r {
                Some(i) => i < self.entries@.len() && self.entries@[i as int].0 == k,
                None => forall|i: int| 0 <= i < self.entries@.len() ==> self.entries@[i].0 != k,
            },
    {
        let mut i: usize = 0;
        while i < self.entries.len()
            invariant
                i <= self.entries@.len(),
                forall|j: int| 0 <= j < i ==> self.entries@[j].0 != k,
            decreases self.entries@.len() - i,
        {
            if self.entries[i].0 == k {
                return Some(i);
            }
            i = i + 1;
        }
        None
    }

    /// The value under `k`.
    pub fn get(&self, k: u32) -> (r: Option<&T>)
        ensures
            match r {
                Some(v) => self@.contains_key(k) && *v == self@[k],
                None => !self@.contains_key(k),
            },
    {
        proof {
            use_type_invariant(self);
            lemma_keyed_map(self.entries@);
        }
        match self.position(k) {
            Some(i) => {
                assert(self.entries@.contains(self.entries@[i as int]));
                Some(&self.entries[i].1)
            },
            None => None,
        }
    }

    /// Sets the value under `k`.
    pub fn insert(&mut self, k: u32, v: T)
        ensures
            final(self)@ == old(self)@.insert(k, v),
    {
        proof {
            use_type_invariant(&*self);
            lemma_keyed_map(self.entries@);
        }
        let pos = self.position(k);
        let mut entries: Vec<(u32, T)> = Vec::new();
        std::mem::swap(&mut entries, &mut self.entries);
        match pos {
            Some(i) => {
                proof {
                    lemma_keyed_map_update(entries@, i as int, v);
                }
                entries.set(i, (k, v));
            },
            None => {
                let ghost before = entries@;
                entries.push((k, v));
                proof {
                    assert(entries@.drop_last() =~= before);
                    assert forall|a: int, b: int|
                        0 <= a < b < entries@.len() implies entries@[a].0 != entries@[b].0 by {
                        if b == before.len() {
                            assert(entries@[a] == before[a]);
                        } else {
                            assert(entries@[a] == before[a]);
                            assert(entries@[b] == before[b]);
                        }
                    }
                }
            },
        }
        self.entries = entries;
    }

    /// Takes the value under `k` out of the table.
    pub fn remove(&mut self, k: u32) -> (r: Option<T>)
        ensures
            r == (if old(self)@.contains_key(k) {
                Some(old(self)@[k])
            } else {
                None
            }),
            final(self)@ == old(self)@.remove(k),
    {
        proof {
            use_type_invariant(&*self);
            lemma_keyed_map(self.entries@);
        }
        match self.position(k) {
            Some(i) => {
                proof {
                    lemma_keyed_map_remove(self.entries@, i as int);
                    assert(self.entries@.contains(self.entries@[i as int]));
                }
                let mut entries: Vec<(u32, T)> = Vec::new();
                std::mem::swap(&mut entries, &mut self.entries);
                let (_, v) = entries.remove(i);
                self.entries = entries;
                Some(v)
            },
            None => {
                proof {
                    if keyed_map(self.entries@).contains_key(k) {
                        let j = choose|j: int|
                            0 <= j < self.entries@.len() && self.entries@[j].0 == k;
                    }
                    assert(self@.remove(k) =~= self@);
                }
                None
            },
        }
    }
    /// The ids, in the table's order, each once.
    pub fn keys(&self) -> (r: Vec<u32>)
        ensures
            r@ == self.key_order(),
            r@.no_duplicates(),
            forall|k: u32| r@.contains(k) <==> self@.contains_key(k),
    {
        proof {
            use_type_invariant(self);
            lemma_keyed_map(self.entries@);
        }
        let mut r: Vec<u32> = Vec::new();
        let mut i: usize = 0;
        while i < self.entries.len()
            invariant
                i <= self.entries@.len(),
                r@ == self.entries@.take(i as int).map_values(|e: (u32, T)| e.0),
            decreases self.entries@.len() - i,
        {
            r.push(self.entries[i].0);
            assert(self.entries@.take(i + 1).map_values(|e: (u32, T)| e.0) =~= self.entries@.take(
                i as int,
            ).map_values(|e: (u32, T)| e.0).push(self.entries@[i as int].0));
            i = i + 1;
        }
        assert(self.entries@.take(i as int) =~= self.entries@);
        proof {
            assert forall|a: int, b: int| 0 <= a < b < r@.len() implies r@[a] != r@[b] by {
                assert(r@[a] == self.entries@[a].0);
                assert(r@[b] == self.entries@[b].0);
            }
            assert forall|k: u32| r@.contains(k) <==> self@.contains_key(k) by {
                if r@.contains(k) {
                    let j = choose|j: int| 0 <= j < r@.len() && r@[j] == k;
                    assert(self.entries@.contains(self.entries@[j]));
                }
                if self@.contains_key(k) {
                    let j = choose|j: int| 0 <= j < self.entries@.len() && self.entries@[j].0 == k;
                    assert(r@[j] == k);
                }
            }
        }
        r
    }
}

} // verus!
