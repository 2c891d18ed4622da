//! Sets of global ids, and ascending id lists.

use vstd::prelude::*;

verus! {

/// A set of global ids.
pub struct IdSet {
    ids: Vec<u32>,
}

impl View for IdSet {
    type V = Set<u32>;

    closed spec fn view(&self) -> Set<u32> {
        Set::new(|x: u32| self.ids@.contains(x))
    }
}

impl IdSet {
    #[verifier::type_invariant]
    spec fn inv(self) -> bool {
        self.ids@.no_duplicates()
    }

    /// The empty set.
    pub fn new() -> (r: IdSet)
        ensures
            r@ == Set::<u32>::empty(),
    {
        let r = IdSet { ids: Vec::new() };
        assert(r@ =~= Set::<u32>::empty());
        r
    }

    /// Whether `x` is in the set.
    pub fn contains(&self, x: u32) -> (r: bool)
        ensures
            r == self@.contains(x),
    {
        let mut i: usize = 0;
        while i < self.ids.len()
            invariant
                i <= self.ids@.len(),
                forall|j: int| 0 <= j < i ==> self.ids@[j] != x,
            decreases self.ids@.len() - i,
        {
            if self.ids[i] == x {
                assert(self.ids@[i as int] == x);
                return true;
            }
            i = i + 1;
        }
        false
    }

    /// Adds `x`.
    pub fn insert(&mut self, x: u32)
        ensures
            final(self)@ == old(self)@.insert(x),
    {
        if !self.contains(x) {
            proof {
                use_type_invariant(&*self);
            }
            let mut ids: Vec<u32> = Vec::new();
            std::mem::swap(&mut ids, &mut self.ids);
            let ghost before = ids@;
            ids.push(x);
            proof {
                assert forall|y: u32| ids@.contains(y) <==> (before.contains(y) || y == x) by {
                    if before.contains(y) {
                        let k = choose|k: int| 0 <= k < before.len() && before[k] == y;
                        assert(ids@[k] == y);
                    }
                    if y == x {
                        assert(ids@[before.len() as int] == x);
                    }
                    if ids@.contains(y) && y != x {
                        let k = choose|k: int| 0 <= k < ids@.len() && ids@[k] == y;
                        assert(k < before.len());
                        assert(before[k] == y);
                    }
                }
                assert forall|a: int, b: int|
                    0 <= a < ids@.len() && 0 <= b < ids@.len() && a != b implies ids@[a]
                    != ids@[b] by {
                    if a == before.len() {
                        assert(before.contains(before[b]));
                    } else if b == before.len() {
                        assert(before.contains(before[a]));
                    } else {
                        assert(ids@[a] == before[a]);
                        assert(ids@[b] == before[b]);
                    }
                }
            }
            self.ids = ids;
        }
        assert(self@ =~= old(self)@.insert(x));
    }

    /// Removes `x`; true when it was in the set.
    pub fn remove(&mut self, x: u32) -> (r: bool)
        ensures
            r == old(self)@.contains(x),
            final(self)@ == old(self)@.remove(x),
    {
        proof {
            use_type_invariant(&*self);
        }
        let mut kept: Vec<u32> = Vec::new();
        let mut found = false;
        let mut i: usize = 0;
        while i < self.ids.len()
            invariant
                i <= self.ids@.len(),
                self.ids@ == old(self).ids@,
                self.ids@.no_duplicates(),
                kept@.no_duplicates(),
                found <==> exists|j: int| 0 <= j < i && self.ids@[j] == x,
                forall|y: u32|
                    kept@.contains(y) <==> (y != x && exists|j: int|
                        0 <= j < i && self.ids@[j] == y),
            decreases self.ids@.len() - i,
        {
            let y = self.ids[i];
            let ghost pre = kept@;
            if y == x {
                found = true;
            } else {
                kept.push(y);
            }
            proof {
                assert forall|z: u32|
                    kept@.contains(z) <==> (z != x && exists|j: int|
                        0 <= j < i + 1 && self.ids@[j] == z) by {
                    if pre.contains(z) {
                        let k = choose|k: int| 0 <= k < pre.len() && pre[k] == z;
                        assert(kept@[k] == z);
                    }
                    if kept@.contains(z) && !pre.contains(z) {
                        let k = choose|k: int| 0 <= k < kept@.len() && kept@[k] == z;
                        assert(k == pre.len());
                        assert(self.ids@[i as int] == z);
                    }
                    if z != x && exists|j: int| 0 <= j < i + 1 && self.ids@[j] == z {
                        let j = choose|j: int| 0 <= j < i + 1 && self.ids@[j] == z;
                        if j == i {
                            assert(kept@[pre.len() as int] == z);
                        }
                    }
                }
                if y == x {
                    assert(self.ids@[i as int] == x);
                }
                if y != x {
                    assert(!pre.contains(y)) by {
                        if pre.contains(y) {
                            let j = choose|j: int| 0 <= j < i && self.ids@[j] == y;
                            assert(self.ids@[i as int] == y);
                        }
                    }
                    assert forall|a: int, b: int|
                        0 <= a < kept@.len() && 0 <= b < kept@.len() && a != b implies kept@[a]
                        != kept@[b] by {
                        if a == pre.len() {
                            assert(pre.contains(pre[b]));
                        } else if b == pre.len() {
                            assert(pre.contains(pre[a]));
                        } else {
                            assert(kept@[a] == pre[a]);
                            assert(kept@[b] == pre[b]);
                        }
                    }
                }
            }
            i = i + 1;
        }
        self.ids = kept;
        assert(self@ =~= old(self)@.remove(x));
        found
    }
    /// The number of ids in the set.
    pub fn len(&self) -> (r: usize)
        ensures
            r == self@.len(),
    {
        proof {
            use_type_invariant(self);
            self.ids@.unique_seq_to_set();
            assert(self@ =~= self.ids@.to_set());
        }
        self.ids.len()
    }

    /// The ids of the set, each once.
    pub fn to_vec(&self) -> (r: Vec<u32>)
        ensures
            r@.no_duplicates(),
            forall|x: u32| r@.contains(x) <==> self@.contains(x),
    {
        proof {
            use_type_invariant(self);
        }
        let mut r: Vec<u32> = Vec::new();
        let mut i: usize = 0;
        while i < self.ids.len()
            invariant
                i <= self.ids@.len(),
                r@ == self.ids@.take(i as int),
            decreases self.ids@.len() - i,
        {
            r.push(self.ids[i]);
            assert(self.ids@.take(i + 1) =~= self.ids@.take(i as int).push(self.ids@[i as int]));
            i = i + 1;
        }
        assert(self.ids@.take(i as int) =~= self.ids@);
        r
    }
}


/// Strictly ascending.
pub open spec fn increasing(s: Seq<u32>) -> bool {
    forall|i: int, j: int| 0 <= i < j < s.len() ==> s[i] < s[j]
}

/// The ids a sequence holds.
pub open spec fn elems(s: Seq<u32>) -> Set<u32> {
    Set::new(|x: u32| s.contains(x))
}

/// The ascending sequence of the ids of `s`.
pub open spec fn ascending(s: Set<u32>) -> Seq<u32> {
    choose|q: Seq<u32>| increasing(q) && elems(q) == s
}

/// Two ascending sequences with the same ids are the same sequence.
pub proof fn lemma_increasing_unique(a: Seq<u32>, b: Seq<u32>)
    requires
        increasing(a),
        increasing(b),
        elems(a) == elems(b),
    ensures
        a == b,
    decreases a.len(),
{
    if a.len() == 0 {
        if b.len() > 0 {
            assert(elems(b).contains(b[0]));
            assert(!elems(a).contains(b[0]));
        }
        assert(a =~= b);
    } else {
        assert(elems(a).contains(a[0]));
        assert(elems(b).contains(a[0]));
        assert(b.len() > 0);
        assert(elems(b).contains(b[0]));
        assert(elems(a).contains(b[0]));
        let ka = choose|k: int| 0 <= k < a.len() && a[k] == b[0];
        let kb = choose|k: int| 0 <= k < b.len() && b[k] == a[0];
        assert(a[0] <= a[ka]);
        assert(b[0] <= b[kb]);
        assert(a[0] == b[0]);
        let a1 = a.drop_first();
        let b1 = b.drop_first();
        assert forall|x: u32| elems(a1).contains(x) <==> elems(b1).contains(x) by {
            if a1.contains(x) {
                let k = choose|k: int| 0 <= k < a1.len() && a1[k] == x;
                assert(a[k + 1] == x);
                assert(elems(a).contains(x));
                assert(elems(b).contains(x));
                let m = choose|m: int| 0 <= m < b.len() && b[m] == x;
                assert(a[0] < a[k + 1]);
                assert(m != 0);
                assert(b1[m - 1] == x);
            }
            if b1.contains(x) {
                let k = choose|k: int| 0 <= k < b1.len() && b1[k] == x;
                assert(b[k + 1] == x);
                assert(elems(b).contains(x));
                assert(elems(a).contains(x));
                let m = choose|m: int| 0 <= m < a.len() && a[m] == x;
                assert(b[0] < b[k + 1]);
                assert(m != 0);
                assert(a1[m - 1] == x);
            }
        }
        assert(elems(a1) =~= elems(b1));
        lemma_increasing_unique(a1, b1);
        assert(a =~= b1.insert(0, b[0]));
        assert(b =~= b1.insert(0, b[0]));
    }
}

/// An ascending sequence is the ascending sequence of its ids.
pub proof fn lemma_ascending(q: Seq<u32>)
    requires
        increasing(q),
    ensures
        ascending(elems(q)) == q,
{
    let c = ascending(elems(q));
    assert(increasing(c) && elems(c) == elems(q));
    lemma_increasing_unique(c, q);
}

/// Adds `x` to the ascending sequence `v`, keeping it ascending.
pub fn insert_sorted(v: &mut Vec<u32>, x: u32)
    requires
        increasing(old(v)@),
    ensures
        increasing(final(v)@),
        elems(final(v)@) == elems(old(v)@).insert(x),
{
    let mut i: usize = 0;
    while i < v.len() && v[i] < x
        invariant
            i <= v@.len(),
            forall|j: int| 0 <= j < i ==> v@[j] < x,
        decreases v@.len() - i,
    {
        i = i + 1;
    }
    if i < v.len() && v[i] == x {
        assert(v@.contains(x));
        assert(elems(v@) =~= elems(v@).insert(x));
        return;
    }
    let ghost before = v@;
    v.insert(i, x);
    proof {
        assert forall|a: int, b: int| 0 <= a < b < v@.len() implies v@[a] < v@[b] by {
            if b < i {
            } else if b == i {
            } else if a < i {
                assert(v@[b] == before[b - 1]);
                assert(before[i as int] > x);
                if b - 1 > i {
                    assert(before[i as int] < before[b - 1]);
                }
            } else if a == i {
                assert(v@[b] == before[b - 1]);
                assert(before[i as int] >= x);
                assert(before[i as int] != x);
                if b - 1 > i {
                    assert(before[i as int] < before[b - 1]);
                }
            } else {
                assert(v@[a] == before[a - 1]);
                assert(v@[b] == before[b - 1]);
            }
        }
        assert forall|y: u32| v@.contains(y) <==> (before.contains(y) || y == x) by {
            if v@.contains(y) {
                let k = choose|k: int| 0 <= k < v@.len() && v@[k] == y;
                if k < i {
                    assert(before[k] == y);
                } else if k > i {
                    assert(before[k - 1] == y);
                }
            }
            if before.contains(y) {
                let k = choose|k: int| 0 <= k < before.len() && before[k] == y;
                if k < i {
                    assert(v@[k] == y);
                } else {
                    assert(v@[k + 1] == y);
                }
            }
            if y == x {
                assert(v@[i as int] == x);
            }
        }
        assert forall|y: u32| #[trigger] elems(v@).contains(y) == elems(before).insert(x).contains(y) by {
            assert(elems(v@).contains(y) == v@.contains(y));
            assert(elems(before).contains(y) == before.contains(y));
        }
        assert(elems(v@) =~= elems(before).insert(x));
    }
}

/// Whether two id lists are the same sequence.
pub fn same_ids(a: &Vec<u32>, b: &Vec<u32>) -> (r: bool)
    ensures
        r == (a@ == b@),
{
    if a.len() != b.len() {
        return false;
    }
    let mut i: usize = 0;
    while i < a.len()
        invariant
            i <= a@.len(),
            a@.len() == b@.len(),
            forall|j: int| 0 <= j < i ==> a@[j] == b@[j],
        decreases a@.len() - i,
    {
        if a[i] != b[i] {
            return false;
        }
        i = i + 1;
    }
    assert(a@ =~= b@);
    true
}

proof fn lemma_max_exists(s: Set<u32>)
    requires
        s.finite(),
        s.len() > 0,
    ensures
        exists|m: u32| s.contains(m) && forall|y: u32| #[trigger] s.contains(y) ==> y <= m,
    decreases s.len(),
{
    let x = s.choose();
    let t = s.remove(x);
    if t.len() == 0 {
        assert forall|y: u32| #[trigger] s.contains(y) implies y <= x by {
            if y != x {
                assert(t.contains(y));
            }
        }
    } else {
        lemma_max_exists(t);
        let m = choose|m: u32| t.contains(m) && forall|y: u32| #[trigger] t.contains(y) ==> y <= m;
        let top = if x <= m {
            m
        } else {
            x
        };
        assert forall|y: u32| #[trigger] s.contains(y) implies y <= top by {
            if y != x {
                assert(t.contains(y));
            }
        }
        assert(s.contains(top));
    }
}

/// Every finite set of ids has an ascending sequence.
pub proof fn lemma_ascending_exists(s: Set<u32>)
    requires
        s.finite(),
    ensures
        exists|q: Seq<u32>| increasing(q) && elems(q) == s,
    decreases s.len(),
{
    if s.len() == 0 {
        assert(s =~= Set::<u32>::empty());
        let q: Seq<u32> = seq![];
        assert(elems(q) =~= s);
        assert(increasing(q) && elems(q) == s);
    } else {
        lemma_max_exists(s);
        let m = choose|m: u32| s.contains(m) && forall|y: u32| #[trigger] s.contains(y) ==> y <= m;
        let t = s.remove(m);
        lemma_ascending_exists(t);
        let q = choose|q: Seq<u32>| increasing(q) && elems(q) == t;
        let q2 = q.push(m);
        assert forall|i: int, j: int| 0 <= i < j < q2.len() implies q2[i] < q2[j] by {
            if j == q.len() {
                assert(q.contains(q[i]));
                assert(elems(q).contains(q[i]));
                assert(t.contains(q[i]));
                assert(s.contains(q[i]));
                assert(q[i] != m);
            } else {
                assert(q2[i] == q[i]);
                assert(q2[j] == q[j]);
            }
        }
        assert forall|y: u32| #[trigger] elems(q2).contains(y) == s.contains(y) by {
            if q2.contains(y) {
                let k = choose|k: int| 0 <= k < q2.len() && q2[k] == y;
                if k < q.len() {
                    assert(q[k] == y);
                    assert(elems(q).contains(y));
                }
            }
            if s.contains(y) {
                if y == m {
                    assert(q2[q.len() as int] == y);
                } else {
                    assert(t.contains(y));
                    assert(elems(q).contains(y));
                    let k = choose|k: int| 0 <= k < q.len() && q[k] == y;
                    assert(q2[k] == y);
                }
            }
        }
        assert(elems(q2) =~= s);
    }
}

} // verus!
