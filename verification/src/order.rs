//! The order of `String`: lexicographic by character (UTF-8 bytes compare
//! in the same order as the code points they encode), and stable sorting by
//! a string key.

use vstd::prelude::*;
use crate::text::views;

verus! {

/// `a` sorts strictly before `b` as `String`'s `Ord` sorts them.
pub open spec fn lex_lt(a: Seq<char>, b: Seq<char>) -> bool
    decreases a.len(),
{
    if a.len() == 0 {
        b.len() > 0
    } else if b.len() == 0 {
        false
    } else if a[0] != b[0] {
        a[0] < b[0]
    } else {
        lex_lt(a.drop_first(), b.drop_first())
    }
}

pub open spec fn lex_le(a: Seq<char>, b: Seq<char>) -> bool {
    lex_lt(a, b) || a == b
}

pub proof fn lemma_lex_irreflexive(a: Seq<char>)
    ensures
        !lex_lt(a, a),
    decreases a.len(),
{
    if a.len() > 0 {
        lemma_lex_irreflexive(a.drop_first());
    }
}

pub proof fn lemma_lex_total(a: Seq<char>, b: Seq<char>)
    ensures
        lex_lt(a, b) || lex_lt(b, a) || a == b,
        !(lex_lt(a, b) && lex_lt(b, a)),
    decreases a.len(),
{
    if a.len() > 0 && b.len() > 0 {
        if a[0] == b[0] {
            lemma_lex_total(a.drop_first(), b.drop_first());
            if a.drop_first() == b.drop_first() {
                assert(a =~= seq![a[0]] + a.drop_first());
                assert(b =~= seq![b[0]] + b.drop_first());
            }
        } else {
            assert(a[0] < b[0] || b[0] < a[0]);
        }
    } else if a.len() == 0 && b.len() == 0 {
        assert(a =~= b);
    }
}

pub proof fn lemma_lex_transitive(a: Seq<char>, b: Seq<char>, c: Seq<char>)
    requires
        lex_lt(a, b),
        lex_lt(b, c),
    ensures
        lex_lt(a, c),
    decreases a.len(),
{
    if a.len() > 0 && b.len() > 0 && c.len() > 0 {
        if a[0] == b[0] && b[0] == c[0] {
            lemma_lex_transitive(a.drop_first(), b.drop_first(), c.drop_first());
        }
    }
}

pub proof fn lemma_lex_le_transitive(a: Seq<char>, b: Seq<char>, c: Seq<char>)
    requires
        lex_le(a, b),
        lex_le(b, c),
    ensures
        lex_le(a, c),
{
    if lex_lt(a, b) && lex_lt(b, c) {
        lemma_lex_transitive(a, b, c);
    }
}

proof fn lemma_lex_skip(a: Seq<char>, b: Seq<char>, i: int)
    requires
        0 <= i < a.len(),
        i < b.len(),
        a[i] == b[i],
    ensures
        lex_lt(a.skip(i), b.skip(i)) == lex_lt(a.skip(i + 1), b.skip(i + 1)),
{
    assert(a.skip(i).drop_first() =~= a.skip(i + 1));
    assert(b.skip(i).drop_first() =~= b.skip(i + 1));
}

/// Whether `a` sorts strictly before `b`.
pub fn lex_less(a: &Vec<char>, b: &Vec<char>) -> (r: bool)
    ensures
        r == lex_lt(a@, b@),
{
    let mut i: usize = 0;
    assert(a@.skip(0) =~= a@);
    assert(b@.skip(0) =~= b@);
    while i < a.len() && i < b.len() && a[i] == b[i]
        invariant
            i <= a@.len(),
            i <= b@.len(),
            lex_lt(a@, b@) == lex_lt(a@.skip(i as int), b@.skip(i as int)),
        decreases a@.len() - i,
    {
        proof {
            lemma_lex_skip(a@, b@, i as int);
        }
        i = i + 1;
    }
    if i == a.len() {
        i < b.len()
    } else if i == b.len() {
        false
    } else {
        assert(a@.skip(i as int)[0] == a@[i as int]);
        assert(b@.skip(i as int)[0] == b@[i as int]);
        a[i] < b[i]
    }
}

/// Whether `a` and `b` hold the same characters.
pub fn same_chars(a: &Vec<char>, b: &Vec<char>) -> (r: bool)
    ensures
        r == (a@ == b@),
{
    if a.len() != b.len() {
        return false;
    }
    let mut i: usize = 0;
    while i < a.len()
        invariant
            a@.len() == b@.len(),
            i <= a@.len(),
            forall|j: int| 0 <= j < i ==> a@[j] == b@[j],
        decreases a@.len() - i,
    {
        if a[i] != b[i] {
            return false;
        }
        i = i + 1;
    }
    assert(a@ =~= b@);
    true
}

/// Index `i` comes before index `j` when sorting stably by `keys`.
pub open spec fn sorts_before(keys: Seq<Seq<char>>, i: int, j: int) -> bool {
    lex_lt(keys[i], keys[j]) || (keys[i] == keys[j] && i < j)
}

/// `order` lists the indices of `keys` as a stable sort by key does: each
/// index once, by key, and equal keys in their original order.
pub open spec fn is_stable_order(keys: Seq<Seq<char>>, order: Seq<usize>) -> bool {
    &&& order.len() == keys.len()
    &&& forall|i: int| 0 <= i < order.len() ==> #[trigger] order[i] < keys.len()
    &&& forall|i: int, j: int|
        0 <= i < j < order.len() ==> sorts_before(keys, #[trigger] order[i] as int, #[trigger] order[j] as int)
}

/// The indices of `keys` in stable sorted order.
pub fn stable_order(keys: &Vec<Vec<char>>) -> (order: Vec<usize>)
    ensures
        is_stable_order(views(keys@), order@),
{
    let ghost ks = views(keys@);
    let mut order: Vec<usize> = Vec::new();
    let mut k: usize = 0;
    while k < keys.len()
        invariant
            ks == views(keys@),
            k <= keys@.len(),
            order@.len() == k,
            forall|i: int| 0 <= i < order@.len() ==> #[trigger] order@[i] < k,
            forall|i: int, j: int|
                0 <= i < j < order@.len() ==> sorts_before(ks, #[trigger] order@[i] as int, #[trigger] order@[j] as int),
        decreases keys@.len() - k,
    {
        let mut p: usize = order.len();
        while p > 0 && lex_less(&keys[k], &keys[order[p - 1]])
            invariant
                ks == views(keys@),
                k < keys@.len(),
                p <= order@.len(),
                forall|i: int| 0 <= i < order@.len() ==> #[trigger] order@[i] < k,
                forall|q: int| p <= q < order@.len() ==> lex_lt(ks[k as int], ks[#[trigger] order@[q] as int]),
            decreases p,
        {
            p = p - 1;
        }
        let ghost old_order = order@;
        proof {
            if p > 0 {
                let last = old_order[p - 1] as int;
                lemma_lex_total(ks[k as int], ks[last]);
                assert(lex_le(ks[last], ks[k as int]));
                assert forall|q: int| 0 <= q < p implies lex_le(ks[#[trigger] old_order[q] as int], ks[k as int]) by {
                    if q < p - 1 {
                        assert(sorts_before(ks, old_order[q] as int, old_order[p - 1] as int));
                        lemma_lex_le_transitive(ks[old_order[q] as int], ks[last], ks[k as int]);
                    }
                }
            }
        }
        order.insert(p, k);
        proof {
            assert forall|i: int| 0 <= i < order@.len() implies #[trigger] order@[i] < k + 1 by {
                if i < p {
                    assert(order@[i] == old_order[i]);
                } else if i > p {
                    assert(order@[i] == old_order[i - 1]);
                }
            }
            assert forall|i: int, j: int|
                0 <= i < j < order@.len() implies sorts_before(ks, #[trigger] order@[i] as int, #[trigger] order@[j] as int) by {
                if j < p {
                    assert(order@[i] == old_order[i] && order@[j] == old_order[j]);
                } else if j == p {
                    assert(order@[i] == old_order[i]);
                    assert(lex_le(ks[old_order[i] as int], ks[k as int]));
                } else if i == p {
                    assert(order@[j] == old_order[j - 1]);
                } else if i < p {
                    assert(order@[i] == old_order[i] && order@[j] == old_order[j - 1]);
                } else {
                    assert(order@[i] == old_order[i - 1] && order@[j] == old_order[j - 1]);
                }
            }
        }
        k = k + 1;
    }
    order
}


/// `a` sorts strictly before `b` as tuples of strings do: by the first
/// component that differs.
pub open spec fn tuple_lt(a: Seq<Seq<char>>, b: Seq<Seq<char>>) -> bool
    decreases a.len(),
{
    if a.len() == 0 || b.len() == 0 {
        false
    } else if a[0] != b[0] {
        lex_lt(a[0], b[0])
    } else {
        tuple_lt(a.drop_first(), b.drop_first())
    }
}

pub open spec fn tuple_le(a: Seq<Seq<char>>, b: Seq<Seq<char>>) -> bool {
    tuple_lt(a, b) || a == b
}

pub proof fn lemma_tuple_total(a: Seq<Seq<char>>, b: Seq<Seq<char>>)
    requires
        a.len() == b.len(),
    ensures
        tuple_lt(a, b) || tuple_lt(b, a) || a == b,
        !(tuple_lt(a, b) && tuple_lt(b, a)),
    decreases a.len(),
{
    if a.len() > 0 {
        if a[0] == b[0] {
            lemma_tuple_total(a.drop_first(), b.drop_first());
            if a.drop_first() == b.drop_first() {
                assert(a =~= seq![a[0]] + a.drop_first());
                assert(b =~= seq![b[0]] + b.drop_first());
            }
        } else {
            lemma_lex_total(a[0], b[0]);
        }
    } else {
        assert(a =~= b);
    }
}

pub proof fn lemma_tuple_transitive(a: Seq<Seq<char>>, b: Seq<Seq<char>>, c: Seq<Seq<char>>)
    requires
        tuple_lt(a, b),
        tuple_lt(b, c),
    ensures
        tuple_lt(a, c),
    decreases a.len(),
{
    if a.len() > 0 && b.len() > 0 && c.len() > 0 {
        if a[0] == b[0] && b[0] == c[0] {
            lemma_tuple_transitive(a.drop_first(), b.drop_first(), c.drop_first());
        } else if a[0] != b[0] && b[0] != c[0] {
            lemma_lex_transitive(a[0], b[0], c[0]);
            if a[0] == c[0] {
                lemma_lex_total(a[0], b[0]);
            }
        } else if a[0] == b[0] {
        } else {
            if a[0] == c[0] {
                lemma_lex_total(a[0], b[0]);
            }
        }
    }
}

pub proof fn lemma_tuple_le_transitive(a: Seq<Seq<char>>, b: Seq<Seq<char>>, c: Seq<Seq<char>>)
    requires
        tuple_le(a, b),
        tuple_le(b, c),
    ensures
        tuple_le(a, c),
{
    if tuple_lt(a, b) && tuple_lt(b, c) {
        lemma_tuple_transitive(a, b, c);
    }
}

/// The views of a sequence of string tuples.
pub open spec fn tuple_views(v: Seq<Vec<Vec<char>>>) -> Seq<Seq<Seq<char>>> {
    v.map_values(|t: Vec<Vec<char>>| views(t@))
}

/// Whether tuple `a` sorts strictly before tuple `b`.
pub fn tuple_less(a: &Vec<Vec<char>>, b: &Vec<Vec<char>>) -> (r: bool)
    ensures
        r == tuple_lt(views(a@), views(b@)),
{
    let mut i: usize = 0;
    assert(views(a@).skip(0) =~= views(a@));
    assert(views(b@).skip(0) =~= views(b@));
    while i < a.len() && i < b.len()
        invariant
            i <= a@.len(),
            i <= b@.len(),
            tuple_lt(views(a@), views(b@)) == tuple_lt(views(a@).skip(i as int), views(b@).skip(i as int)),
        decreases a@.len() - i,
    {
        let ghost sa = views(a@).skip(i as int);
        let ghost sb = views(b@).skip(i as int);
        assert(sa[0] == a@[i as int]@);
        assert(sb[0] == b@[i as int]@);
        if !same_chars(&a[i], &b[i]) {
            return lex_less(&a[i], &b[i]);
        }
        assert(sa.drop_first() =~= views(a@).skip(i + 1));
        assert(sb.drop_first() =~= views(b@).skip(i + 1));
        i = i + 1;
    }
    false
}

/// Index `i` comes before index `j` when sorting stably by tuple `keys`.
pub open spec fn tuple_sorts_before(keys: Seq<Seq<Seq<char>>>, i: int, j: int) -> bool {
    tuple_lt(keys[i], keys[j]) || (keys[i] == keys[j] && i < j)
}

/// `order` lists the indices of `keys` as a stable sort by tuple key does.
pub open spec fn is_stable_tuple_order(keys: Seq<Seq<Seq<char>>>, order: Seq<usize>) -> bool {
    &&& order.len() == keys.len()
    &&& forall|i: int| 0 <= i < order.len() ==> #[trigger] order[i] < keys.len()
    &&& forall|i: int, j: int|
        0 <= i < j < order.len() ==> tuple_sorts_before(keys, #[trigger] order[i] as int, #[trigger] order[j] as int)
}

/// The indices of `keys`, tuples of one common length, in stable sorted
/// order.
pub fn stable_tuple_order(keys: &Vec<Vec<Vec<char>>>) -> (order: Vec<usize>)
    requires
        forall|i: int, j: int| 0 <= i < keys@.len() && 0 <= j < keys@.len() ==> #[trigger] keys@[i]@.len() == #[trigger] keys@[j]@.len(),
    ensures
        is_stable_tuple_order(tuple_views(keys@), order@),
{
    let ghost ks = tuple_views(keys@);
    let mut order: Vec<usize> = Vec::new();
    let mut k: usize = 0;
    while k < keys.len()
        invariant
            ks == tuple_views(keys@),
            forall|i: int, j: int| 0 <= i < keys@.len() && 0 <= j < keys@.len() ==> #[trigger] keys@[i]@.len() == #[trigger] keys@[j]@.len(),
            k <= keys@.len(),
            order@.len() == k,
            forall|i: int| 0 <= i < order@.len() ==> #[trigger] order@[i] < k,
            forall|i: int, j: int|
                0 <= i < j < order@.len() ==> tuple_sorts_before(ks, #[trigger] order@[i] as int, #[trigger] order@[j] as int),
        decreases keys@.len() - k,
    {
        let mut p: usize = order.len();
        while p > 0 && tuple_less(&keys[k], &keys[order[p - 1]])
            invariant
                ks == tuple_views(keys@),
                k < keys@.len(),
                p <= order@.len(),
                forall|i: int| 0 <= i < order@.len() ==> #[trigger] order@[i] < k,
                forall|q: int| p <= q < order@.len() ==> tuple_lt(ks[k as int], ks[#[trigger] order@[q] as int]),
            decreases p,
        {
            p = p - 1;
        }
        let ghost old_order = order@;
        proof {
            if p > 0 {
                let last = old_order[p - 1] as int;
                assert(keys@[k as int]@.len() == keys@[last]@.len());
                lemma_tuple_total(ks[k as int], ks[last]);
                assert(tuple_le(ks[last], ks[k as int]));
                assert forall|q: int| 0 <= q < p implies tuple_le(ks[#[trigger] old_order[q] as int], ks[k as int]) by {
                    if q < p - 1 {
                        assert(tuple_sorts_before(ks, old_order[q] as int, old_order[p - 1] as int));
                        lemma_tuple_le_transitive(ks[old_order[q] as int], ks[last], ks[k as int]);
                    }
                }
            }
        }
        order.insert(p, k);
        proof {
            assert forall|i: int| 0 <= i < order@.len() implies #[trigger] order@[i] < k + 1 by {
                if i < p {
                    assert(order@[i] == old_order[i]);
                } else if i > p {
                    assert(order@[i] == old_order[i - 1]);
                }
            }
            assert forall|i: int, j: int|
                0 <= i < j < order@.len() implies tuple_sorts_before(ks, #[trigger] order@[i] as int, #[trigger] order@[j] as int) by {
                if j < p {
                    assert(order@[i] == old_order[i] && order@[j] == old_order[j]);
                } else if j == p {
                    assert(order@[i] == old_order[i]);
                    assert(tuple_le(ks[old_order[i] as int], ks[k as int]));
                } else if i == p {
                    assert(order@[j] == old_order[j - 1]);
                } else if i < p {
                    assert(order@[i] == old_order[i] && order@[j] == old_order[j - 1]);
                } else {
                    assert(order@[i] == old_order[i - 1] && order@[j] == old_order[j - 1]);
                }
            }
        }
        k = k + 1;
    }
    order
}

/// `out` holds the items of `inp` as a stable sort by `keys` orders them.
pub open spec fn stably_sorted<T>(out: Seq<T>, inp: Seq<T>, keys: Seq<Seq<char>>) -> bool {
    exists|order: Seq<usize>|
        #![trigger is_stable_order(keys, order)]
        is_stable_order(keys, order) && out.len() == order.len() && forall|i: int|
            0 <= i < out.len() ==> out[i] == inp[#[trigger] order[i] as int]
}

/// `out` holds the items of `inp` as a stable sort by tuple `keys` orders
/// them.
pub open spec fn stably_sorted_by_tuples<T>(out: Seq<T>, inp: Seq<T>, keys: Seq<Seq<Seq<char>>>) -> bool {
    exists|order: Seq<usize>|
        #![trigger is_stable_tuple_order(keys, order)]
        is_stable_tuple_order(keys, order) && out.len() == order.len() && forall|i: int|
            0 <= i < out.len() ==> out[i] == inp[#[trigger] order[i] as int]
}

} // verus!
