//! Sorting of records by a string key, ascending or descending, keeping the
//! given order among records with equal keys.

use vstd::prelude::*;
use crate::text::{lemma_str_order, str_less, str_lt};

verus! {

/// A record that is ordered and found by a string.
pub trait Keyed {
    spec fn key(&self) -> Seq<char>;

    fn key_str(&self) -> (r: &str)
        ensures
            r@ == self.key(),
    ;
}

impl Keyed for String {
    open spec fn key(&self) -> Seq<char> {
        self@
    }

    fn key_str(&self) -> (r: &str) {
        self.as_str()
    }
}

/// Whether a record keyed `a` must stand before one keyed `b`.
pub open spec fn precedes(a: Seq<char>, b: Seq<char>, descending: bool) -> bool {
    if descending {
        str_lt(b, a)
    } else {
        str_lt(a, b)
    }
}

/// `s` with `x` put in behind the records that must stand before it, and
/// before all others.
pub open spec fn insert_sorted<T: Keyed>(s: Seq<T>, x: T, descending: bool) -> Seq<T>
    decreases s.len(),
{
    if s.len() == 0 {
        seq![x]
    } else if precedes(s[0].key(), x.key(), descending) {
        seq![s[0]] + insert_sorted(s.drop_first(), x, descending)
    } else {
        seq![x] + s
    }
}

/// The records of `s` in order of their keys; records with equal keys keep
/// the order they had in `s`.
pub open spec fn sorted_by_key<T: Keyed>(s: Seq<T>, descending: bool) -> Seq<T>
    decreases s.len(),
{
    if s.len() == 0 {
        Seq::<T>::empty()
    } else {
        insert_sorted(sorted_by_key(s.drop_first(), descending), s[0], descending)
    }
}

/// No record stands behind one that it must precede.
pub open spec fn is_sorted<T: Keyed>(s: Seq<T>, descending: bool) -> bool {
    forall|i: int, j: int|
        0 <= i < j < s.len() ==> !precedes(#[trigger] s[j].key(), #[trigger] s[i].key(), descending)
}

/// Where the records before a place must stand before `x` and the one at
/// the place need not, `x` is put in at that place.
pub proof fn lemma_insert_at<T: Keyed>(s: Seq<T>, x: T, descending: bool, p: int)
    requires
        0 <= p <= s.len(),
        forall|i: int| 0 <= i < p ==> precedes(#[trigger] s[i].key(), x.key(), descending),
        p < s.len() ==> !precedes(s[p].key(), x.key(), descending),
    ensures
        insert_sorted(s, x, descending) == s.insert(p, x),
    decreases p,
{
    if p == 0 {
        assert(seq![x] + s =~= s.insert(0, x));
    } else {
        let t = s.drop_first();
        assert forall|i: int| 0 <= i < p - 1 implies precedes(
            #[trigger] t[i].key(),
            x.key(),
            descending,
        ) by {
            assert(t[i] == s[i + 1]);
        }
        lemma_insert_at(t, x, descending, p - 1);
        assert(seq![s[0]] + t.insert(p - 1, x) =~= s.insert(p, x));
    }
}

/// Putting a record in keeps the others, adds that one, and keeps a sorted
/// sequence sorted.
pub proof fn lemma_insert_sorted<T: Keyed>(s: Seq<T>, x: T, descending: bool)
    ensures
        insert_sorted(s, x, descending).len() == s.len() + 1,
        insert_sorted(s, x, descending).to_multiset() == s.to_multiset().insert(x),
        is_sorted(s, descending) ==> is_sorted(insert_sorted(s, x, descending), descending),
    decreases s.len(),
{
    broadcast use vstd::seq_lib::group_to_multiset_ensures;

    let r = insert_sorted(s, x, descending);
    if s.len() == 0 {
        assert(r =~= Seq::<T>::empty().push(x));
        assert(s =~= Seq::<T>::empty());
    } else if precedes(s[0].key(), x.key(), descending) {
        let t = s.drop_first();
        let rt = insert_sorted(t, x, descending);
        lemma_insert_sorted(t, x, descending);
        assert(r =~= seq![s[0]] + rt);
        assert(s =~= seq![s[0]] + t);
        lemma_multiset_cons(s[0], rt);
        lemma_multiset_cons(s[0], t);
        assert(r.to_multiset() =~= s.to_multiset().insert(x));
        if is_sorted(s, descending) {
            assert forall|i: int, j: int| 0 <= i < j < t.len() implies !precedes(
                #[trigger] t[j].key(),
                #[trigger] t[i].key(),
                descending,
            ) by {
                assert(t[i] == s[i + 1] && t[j] == s[j + 1]);
            }
            assert(is_sorted(rt, descending));
            assert forall|i: int, j: int| 0 <= i < j < r.len() implies !precedes(
                #[trigger] r[j].key(),
                #[trigger] r[i].key(),
                descending,
            ) by {
                if i == 0 {
                    // every record of rt is x or a record of t
                    assert(rt.to_multiset().count(rt[j - 1]) > 0);
                    assert(rt[j - 1] == x || t.to_multiset().count(rt[j - 1]) > 0);
                    if rt[j - 1] == x {
                        lemma_str_order(s[0].key(), x.key(), s[0].key());
                    } else {
                        assert(t.contains(rt[j - 1]));
                        let k = choose|k: int| 0 <= k < t.len() && t[k] == rt[j - 1];
                        assert(s[k + 1] == t[k]);
                        assert(!precedes(s[k + 1].key(), s[0].key(), descending));
                    }
                } else {
                    assert(r[i] == rt[i - 1] && r[j] == rt[j - 1]);
                }
            }
        }
    } else {
        assert(r =~= seq![x] + s);
        lemma_multiset_cons(x, s);
        if is_sorted(s, descending) {
            assert forall|i: int, j: int| 0 <= i < j < r.len() implies !precedes(
                #[trigger] r[j].key(),
                #[trigger] r[i].key(),
                descending,
            ) by {
                if i == 0 {
                    assert(r[j] == s[j - 1]);
                    if j - 1 > 0 {
                        assert(!precedes(s[j - 1].key(), s[0].key(), descending));
                    }
                    lemma_str_order(s[j - 1].key(), s[0].key(), x.key());
                    lemma_str_order(x.key(), s[0].key(), s[j - 1].key());
                    lemma_str_order(s[0].key(), x.key(), s[j - 1].key());
                    lemma_str_order(s[0].key(), s[j - 1].key(), x.key());
                } else {
                    assert(r[i] == s[i - 1] && r[j] == s[j - 1]);
                }
            }
        }
    }
}

/// A sequence with `x` put before it holds what it held, and `x` once more.
proof fn lemma_multiset_cons<T>(x: T, s: Seq<T>)
    ensures
        (seq![x] + s).to_multiset() == s.to_multiset().insert(x),
    decreases s.len(),
{
    broadcast use vstd::seq_lib::group_to_multiset_ensures;

    if s.len() == 0 {
        assert(seq![x] + s =~= Seq::<T>::empty().push(x));
        assert(s =~= Seq::<T>::empty());
    } else {
        let t = s.drop_last();
        lemma_multiset_cons(x, t);
        assert(s =~= t.push(s.last()));
        assert(seq![x] + s =~= (seq![x] + t).push(s.last()));
        assert((seq![x] + s).to_multiset() =~= s.to_multiset().insert(x));
    }
}

/// Sorting keeps every record, as often as it occurs, and orders them by key.
pub proof fn lemma_sorted_by_key<T: Keyed>(s: Seq<T>, descending: bool)
    ensures
        sorted_by_key(s, descending).len() == s.len(),
        sorted_by_key(s, descending).to_multiset() == s.to_multiset(),
        is_sorted(sorted_by_key(s, descending), descending),
    decreases s.len(),
{
    broadcast use vstd::seq_lib::group_to_multiset_ensures;

    if s.len() == 0 {
        assert(s =~= Seq::<T>::empty());
    } else {
        let t = s.drop_first();
        lemma_sorted_by_key(t, descending);
        lemma_insert_sorted(sorted_by_key(t, descending), s[0], descending);
        assert(s =~= seq![s[0]] + t);
        lemma_multiset_cons(s[0], t);
    }
}

/// What two places of a sequence hold, the sequence holds twice over, or
/// once each.
pub proof fn lemma_count_two<T>(s: Seq<T>, i: int, j: int)
    requires
        0 <= i < j < s.len(),
    ensures
        s[i] == s[j] ==> s.to_multiset().count(s[i]) >= 2,
        s.to_multiset().count(s[i]) >= 1,
        s.to_multiset().count(s[j]) >= 1,
    decreases s.len(),
{
    broadcast use vstd::seq_lib::group_to_multiset_ensures;

    let front = s.drop_last();
    assert(s =~= front.push(s.last()));
    assert(s.contains(s[i]) && s.contains(s[j]));
    if j < s.len() - 1 {
        lemma_count_two(front, i, j);
        assert(front[i] == s[i] && front[j] == s[j]);
    } else {
        assert(front[i] == s[i]);
        assert(front.contains(s[i]));
    }
}

/// What a sequence holds twice over stands at two of its places.
pub proof fn lemma_two_places<T>(s: Seq<T>, x: T) -> (at: (int, int))
    requires
        s.to_multiset().count(x) >= 2,
    ensures
        0 <= at.0 < at.1 < s.len(),
        s[at.0] == x,
        s[at.1] == x,
    decreases s.len(),
{
    broadcast use vstd::seq_lib::group_to_multiset_ensures;

    if s.len() == 0 {
        assert(s.to_multiset().len() == 0);
        (0, 0)
    } else {
        let front = s.drop_last();
        assert(s =~= front.push(s.last()));
        if s.last() == x {
            assert(front.to_multiset().count(x) >= 1);
            assert(front.contains(x));
            let i = choose|i: int| 0 <= i < front.len() && front[i] == x;
            (i, s.len() - 1)
        } else {
            let at = lemma_two_places(front, x);
            at
        }
    }
}

/// Two places of a sequence are two places of the sorted sequence: what
/// they hold stands at two different places there.
pub proof fn lemma_sorted_keeps_two<T: Keyed>(s: Seq<T>, descending: bool, i: int, j: int) -> (at:
    (int, int))
    requires
        0 <= i < j < s.len(),
    ensures
        0 <= at.0 < sorted_by_key(s, descending).len(),
        0 <= at.1 < sorted_by_key(s, descending).len(),
        at.0 != at.1,
        sorted_by_key(s, descending)[at.0] == s[i],
        sorted_by_key(s, descending)[at.1] == s[j],
{
    broadcast use vstd::seq_lib::group_to_multiset_ensures;

    let sorted = sorted_by_key(s, descending);
    lemma_sorted_by_key(s, descending);
    lemma_count_two(s, i, j);
    if s[i] == s[j] {
        lemma_two_places(sorted, s[i])
    } else {
        assert(sorted.contains(s[i]) && sorted.contains(s[j]));
        let a = choose|a: int| 0 <= a < sorted.len() && sorted[a] == s[i];
        let b = choose|b: int| 0 <= b < sorted.len() && sorted[b] == s[j];
        (a, b)
    }
}

/// Whether a record keyed `a` must stand before one keyed `b`.
pub fn key_precedes(a: &str, b: &str, descending: bool) -> (r: bool)
    ensures
        r == precedes(a@, b@, descending),
{
    if descending {
        str_less(b, a)
    } else {
        str_less(a, b)
    }
}

/// Sorts the records by key; records with equal keys keep their order.
pub fn sort_by_key<T: Keyed>(v: Vec<T>, descending: bool) -> (out: Vec<T>)
    ensures
        out@ == sorted_by_key(v@, descending),
{
    let ghost orig = v@;
    let mut v = v;
    let mut out: Vec<T> = Vec::new();
    proof {
        assert(orig.skip(orig.len() as int) =~= Seq::<T>::empty());
    }
    while v.len() > 0
        invariant
            v@.len() <= orig.len(),
            v@ == orig.take(v@.len() as int),
            out@ == sorted_by_key(orig.skip(v@.len() as int), descending),
        decreases v.len(),
    {
        let ghost k = v@.len() as int;
        let x = v.pop().unwrap();
        assert(x == orig[k - 1]);
        let mut p: usize = 0;
        while p < out.len() && key_precedes(out[p].key_str(), x.key_str(), descending)
            invariant
                p <= out.len(),
                forall|i: int| 0 <= i < p ==> precedes(#[trigger] out@[i].key(), x.key(), descending),
            decreases out.len() - p,
        {
            p = p + 1;
        }
        proof {
            lemma_insert_at(out@, x, descending, p as int);
            assert(orig.skip(k - 1).drop_first() =~= orig.skip(k));
            assert(orig.skip(k - 1)[0] == x);
            assert(v@ =~= orig.take(k - 1));
        }
        out.insert(p, x);
    }
    proof {
        assert(orig.skip(0) =~= orig);
    }
    out
}

} // verus!
