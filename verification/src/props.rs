//! A node's property set, as PipeWire reports it in a registry global or a
//! node info event: text keys with text values.

use vstd::prelude::*;
use crate::text::{owned, str_eq};

verus! {

/// Key/value properties; a key set twice keeps its first value for lookups.
#[derive(Clone, Debug, Default)]
pub struct Props {
    entries: Vec<(String, String)>,
}

/// The value of `key` among `entries`: that of its first entry.
pub open spec fn lookup(entries: Seq<(Seq<char>, Seq<char>)>, key: Seq<char>) -> Option<Seq<char>>
    decreases entries.len(),
{
    if entries.len() == 0 {
        None
    } else if entries[0].0 == key {
        Some(entries[0].1)
    } else {
        lookup(entries.drop_first(), key)
    }
}

pub open spec fn pair_view(p: (String, String)) -> (Seq<char>, Seq<char>) {
    (p.0@, p.1@)
}

impl View for Props {
    type V = Seq<(Seq<char>, Seq<char>)>;

    closed spec fn view(&self) -> Seq<(Seq<char>, Seq<char>)> {
        self.entries@.map_values(|p: (String, String)| pair_view(p))
    }
}

proof fn lemma_lookup_skip(entries: Seq<(Seq<char>, Seq<char>)>, key: Seq<char>, i: int)
    requires
        0 <= i < entries.len(),
        entries[i].0 != key,
    ensures
        lookup(entries.skip(i), key) == lookup(entries.skip(i + 1), key),
{
    assert(entries.skip(i).drop_first() =~= entries.skip(i + 1));
}

impl Props {
    /// An empty property set.
    pub fn new() -> (p: Props)
        ensures
            p@.len() == 0,
    {
        Props { entries: Vec::new() }
    }

    /// Sets `key` to `value`: replaces the value of the key if it is there,
    /// else adds the key.
    pub fn insert(&mut self, key: &str, value: &str)
        ensures
            lookup(final(self)@, key@) == Some(value@),
            forall|k: Seq<char>| k != key@ ==> lookup(final(self)@, k) == lookup(old(self)@, k),
    {
        let ghost before = self@;
        let mut i: usize = 0;
        assert(before.skip(0) =~= before);
        while i < self.entries.len()
            invariant
                i <= self.entries@.len(),
                before == self@,
                before == old(self)@,
                self@.len() == self.entries@.len(),
                forall|j: int| 0 <= j < i ==> self@[j].0 != key@,
                forall|k: Seq<char>| k == key@ ==> lookup(before, k) == lookup(before.skip(i as int), k),
            decreases self.entries@.len() - i,
        {
            if str_eq(self.entries[i].0.as_str(), key) {
                assert(before[i as int] == pair_view(self.entries@[i as int]));
                assert(before[i as int].0 == key@);
                self.entries.set(i, (owned(key), owned(value)));
                proof {
                    assert(self@ =~= before.update(i as int, (key@, value@)));
                    lemma_lookup_prefix_miss(self@, key@, i as int);
                    assert forall|k: Seq<char>| k != key@ implies lookup(self@, k) == lookup(before, k) by {
                        lemma_lookup_update_other(before, i as int, (key@, value@), k);
                    }
                }
                return;
            }
            proof {
                assert(self@[i as int] == pair_view(self.entries@[i as int]));
                lemma_lookup_skip(before, key@, i as int);
            }
            i = i + 1;
        }
        self.entries.push((owned(key), owned(value)));
        proof {
            assert(self@ =~= before.push((key@, value@)));
            lemma_lookup_push(before, (key@, value@), key@);
            assert forall|k: Seq<char>| k != key@ implies lookup(self@, k) == lookup(before, k) by {
                lemma_lookup_push(before, (key@, value@), k);
            }
        }
    }

    /// The value of `key`, if the set holds it.
    pub fn get(&self, key: &str) -> (r: Option<String>)
        ensures
            match r {
                Some(v) => lookup(self@, key@) == Some(v@),
                None => lookup(self@, key@) is None,
            },
    {
        let mut i: usize = 0;
        assert(self@.skip(0) =~= self@);
        while i < self.entries.len()
            invariant
                i <= self.entries@.len(),
                self@.len() == self.entries@.len(),
                lookup(self@, key@) == lookup(self@.skip(i as int), key@),
            decreases self.entries@.len() - i,
        {
            assert(self@[i as int] == pair_view(self.entries@[i as int]));
            if str_eq(self.entries[i].0.as_str(), key) {
                assert(self@.skip(i as int)[0] == self@[i as int]);
                return Some(self.entries[i].1.clone());
            }
            proof {
                lemma_lookup_skip(self@, key@, i as int);
            }
            i = i + 1;
        }
        assert(self@.skip(i as int).len() == 0);
        None
    }
}

proof fn lemma_lookup_prefix_miss(entries: Seq<(Seq<char>, Seq<char>)>, key: Seq<char>, i: int)
    requires
        0 <= i < entries.len(),
        forall|j: int| 0 <= j < i ==> entries[j].0 != key,
        entries[i].0 == key,
    ensures
        lookup(entries, key) == Some(entries[i].1),
    decreases i,
{
    if i > 0 {
        lemma_lookup_prefix_miss(entries.drop_first(), key, i - 1);
    }
}

proof fn lemma_lookup_update_other(
    entries: Seq<(Seq<char>, Seq<char>)>,
    i: int,
    e: (Seq<char>, Seq<char>),
    k: Seq<char>,
)
    requires
        0 <= i < entries.len(),
        entries[i].0 == e.0,
        k != e.0,
    ensures
        lookup(entries.update(i, e), k) == lookup(entries, k),
    decreases i,
{
    if i > 0 {
        assert(entries.update(i, e).drop_first() =~= entries.drop_first().update(i - 1, e));
        assert(entries.update(i, e)[0] == entries[0]);
        lemma_lookup_update_other(entries.drop_first(), i - 1, e, k);
    } else {
        assert(entries.update(i, e).drop_first() =~= entries.drop_first());
    }
}

proof fn lemma_lookup_push(entries: Seq<(Seq<char>, Seq<char>)>, e: (Seq<char>, Seq<char>), k: Seq<char>)
    requires
        forall|j: int| 0 <= j < entries.len() ==> entries[j].0 != e.0,
    ensures
        lookup(entries.push(e), k) == if k == e.0 {
            Some(e.1)
        } else {
            lookup(entries, k)
        },
    decreases entries.len(),
{
    if entries.len() > 0 {
        assert(entries.push(e).drop_first() =~= entries.drop_first().push(e));
        assert(entries.push(e)[0] == entries[0]);
        lemma_lookup_push(entries.drop_first(), e, k);
    } else {
        assert(entries.push(e).drop_first() =~= entries);
    }
}

} // verus!
