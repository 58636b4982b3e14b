//! Stable sorting by an order that a type brings along.
use vstd::prelude::*;
use vstd::seq_lib::*;

verus! {

/// A type whose values have an order; values that stand neither before nor after each other keep
/// the order in which they came.
pub trait Ranked: Sized {
    /// `self` belongs behind `other`.
    spec fn after(self, other: Self) -> bool;

    /// What belongs behind another value does not belong before it.
    proof fn one_way(a: Self, b: Self)
        requires
            a.after(b),
        ensures
            !b.after(a),
    ;

    /// Standing in order carries over.
    proof fn carries_over(a: Self, b: Self, c: Self)
        requires
            !a.after(b),
            !b.after(c),
        ensures
            !a.after(c),
    ;

    /// Whether `self` belongs behind `other`.
    fn is_after(&self, other: &Self) -> (r: bool)
        ensures
            r == self.after(*other),
    ;
}

/// A sequence with `x` put before the values at its end that belong behind it.
pub open spec fn place<T: Ranked>(s: Seq<T>, x: T) -> Seq<T>
    decreases s.len(),
{
    if s.len() > 0 && s.last().after(x) {
        place(s.drop_last(), x).push(s.last())
    } else {
        s.push(x)
    }
}

/// The values of a sequence in order.
pub open spec fn sorted<T: Ranked>(s: Seq<T>) -> Seq<T>
    decreases s.len(),
{
    if s.len() == 0 {
        s
    } else {
        place(sorted(s.drop_last()), s.last())
    }
}

/// No value belongs behind a later one.
pub open spec fn in_order<T: Ranked>(s: Seq<T>) -> bool {
    forall|i: int, j: int| 0 <= i < j < s.len() ==> !(#[trigger] s[i]).after(#[trigger] s[j])
}

proof fn lemma_place<T: Ranked>(s: Seq<T>, x: T)
    requires
        in_order(s),
    ensures
        in_order(place(s, x)),
        place(s, x).len() == s.len() + 1,
        place(s, x).to_multiset() == s.to_multiset().insert(x),
        forall|i: int|
            0 <= i < place(s, x).len() ==> #[trigger] place(s, x)[i] == x || s.contains(
                place(s, x)[i],
            ),
    decreases s.len(),
{
    broadcast use group_to_multiset_ensures;

    let p = place(s, x);
    if s.len() > 0 && s.last().after(x) {
        let rest = s.drop_last();
        let q = place(rest, x);
        lemma_place(rest, x);
        assert(s == rest.push(s.last()));
        assert forall|i: int| 0 <= i < p.len() implies #[trigger] p[i] == x || s.contains(p[i]) by {
            if i < q.len() {
                assert(p[i] == q[i]);
                if q[i] != x {
                    let k = choose|k: int| 0 <= k < rest.len() && rest[k] == q[i];
                    assert(s[k] == q[i]);
                }
            } else {
                assert(s[s.len() - 1] == p[i]);
            }
        }
        assert forall|i: int, j: int| 0 <= i < j < p.len() implies !(#[trigger] p[i]).after(
            #[trigger] p[j],
        ) by {
            if j < q.len() {
                assert(p[i] == q[i] && p[j] == q[j]);
            } else {
                assert(p[j] == s.last());
                assert(p[i] == q[i]);
                if q[i] == x {
                    T::one_way(s.last(), x);
                } else {
                    let k = choose|k: int| 0 <= k < rest.len() && rest[k] == q[i];
                    assert(s[k] == q[i]);
                    assert(!s[k].after(s[s.len() - 1]));
                }
            }
        }
    } else {
        assert forall|i: int| 0 <= i < p.len() implies #[trigger] p[i] == x || s.contains(p[i]) by {
            if i < s.len() {
                assert(p[i] == s[i]);
            }
        }
        assert forall|i: int, j: int| 0 <= i < j < p.len() implies !(#[trigger] p[i]).after(
            #[trigger] p[j],
        ) by {
            if j < s.len() {
                assert(p[i] == s[i] && p[j] == s[j]);
            } else {
                assert(p[j] == x);
                assert(p[i] == s[i]);
                if i < s.len() - 1 {
                    assert(!s[i].after(s[s.len() - 1]));
                    T::carries_over(s[i], s.last(), x);
                }
            }
        }
    }
}

/// Sorting puts the values in order and keeps all of them.
pub proof fn sorted_is_ordered_and_complete<T: Ranked>(s: Seq<T>)
    ensures
        in_order(sorted(s)),
        sorted(s).len() == s.len(),
        sorted(s).to_multiset() == s.to_multiset(),
    decreases s.len(),
{
    broadcast use group_to_multiset_ensures;

    if s.len() > 0 {
        sorted_is_ordered_and_complete(s.drop_last());
        lemma_place(sorted(s.drop_last()), s.last());
        assert(s == s.drop_last().push(s.last()));
    }
}

/// Sorting what is in order changes nothing.
pub proof fn sorted_keeps_order<T: Ranked>(s: Seq<T>)
    requires
        in_order(s),
    ensures
        sorted(s) == s,
    decreases s.len(),
{
    if s.len() > 0 {
        let rest = s.drop_last();
        assert forall|i: int, j: int| 0 <= i < j < rest.len() implies !(#[trigger] rest[i]).after(
            #[trigger] rest[j],
        ) by {
            assert(rest[i] == s[i] && rest[j] == s[j]);
        }
        sorted_keeps_order(rest);
        if rest.len() > 0 {
            assert(rest.last() == s[s.len() - 2]);
            assert(!s[s.len() - 2].after(s[s.len() - 1]));
        }
        assert(rest.push(s.last()) == s);
    }
}

/// Puts the values in order.
pub fn sort<T: Ranked>(items: Vec<T>) -> (r: Vec<T>)
    ensures
        r@ == sorted(items@),
{
    let mut v: Vec<T> = items;
    let mut i: usize = 0;
    let ghost all = v@;
    while i < v.len()
        invariant
            i <= v.len(),
            v.len() == all.len(),
            v@.take(i as int) == sorted(all.take(i as int)),
            v@.skip(i as int) == all.skip(i as int),
        decreases v.len() - i,
    {
        let ghost front = v@.take(i as int);
        let ghost back = v@.skip(i + 1);
        let x = v.remove(i);
        proof {
            assert(x == all[i as int]) by {
                assert(all.skip(i as int)[0] == all[i as int]);
            }
            assert(all.take(i + 1).drop_last() == all.take(i as int));
            assert(v@ == front + back);
        }
        let mut j: usize = i;
        assert(front.take(j as int) == front);
        assert(place(front, x) == place(front.take(j as int), x) + front.skip(j as int));
        while j > 0 && v[j - 1].is_after(&x)
            invariant
                j <= i,
                i <= v.len(),
                i == front.len(),
                v@ == front + back,
                place(front, x) == place(front.take(j as int), x) + front.skip(j as int),
            decreases j,
        {
            proof {
                let t = front.take(j as int);
                assert(t.last() == v@[j - 1]);
                assert(t.drop_last() == front.take(j - 1));
                assert(place(t, x) == place(front.take(j - 1), x).push(front[j - 1]));
                assert(place(t, x) + front.skip(j as int) == place(front.take(j - 1), x)
                    + front.skip(j - 1));
            }
            j = j - 1;
        }
        proof {
            let t = front.take(j as int);
            if j > 0 {
                assert(t.last() == v@[j - 1]);
            }
            assert(place(t, x) == t.push(x));
            assert(place(front, x) == t.push(x) + front.skip(j as int));
            assert(v@.insert(j as int, x) == t.push(x) + front.skip(j as int) + back);
        }
        v.insert(j, x);
        proof {
            assert(v@.take(i + 1) == place(front, x));
            assert(v@.skip(i + 1) == back);
            assert(back == all.skip(i + 1)) by {
                assert(all.skip(i as int).skip(1) == all.skip(i + 1));
                assert((seq![x] + back).skip(1) == back);
            }
        }
        i = i + 1;
    }
    proof {
        assert(v@.take(i as int) == v@);
        assert(all.take(i as int) == all);
    }
    v
}

/// Any two values at different places have an order.
pub open spec fn apart<T: Ranked>(s: Seq<T>) -> bool {
    forall|i: int, j: int|
        0 <= i < j < s.len() ==> (#[trigger] s[i]).after(#[trigger] s[j]) || s[j].after(s[i])
}

/// There is one way only to put values in order that all have an order among them.
pub proof fn order_is_unique<T: Ranked>(s: Seq<T>, t: Seq<T>)
    requires
        in_order(s),
        in_order(t),
        apart(s),
        s.to_multiset() == t.to_multiset(),
    ensures
        s == t,
    decreases s.len(),
{
    broadcast use group_to_multiset_ensures;

    assert(s.len() == s.to_multiset().len());
    assert(t.len() == t.to_multiset().len());
    if s.len() == 0 {
        assert(s =~= t);
    } else {
        let n = s.len() - 1;
        let a = s.last();
        let b = t.last();
        assert(s[n] == a && t[n] == b);
        assert(t.contains(b));
        assert(t.to_multiset().count(b) > 0);
        assert(s.contains(b));
        let m = choose|m: int| 0 <= m < s.len() && s[m] == b;
        assert(s.contains(a));
        assert(s.to_multiset().count(a) > 0);
        assert(t.contains(a));
        let k = choose|k: int| 0 <= k < t.len() && t[k] == a;
        if m < n {
            assert(!s[m].after(s[n]));
            assert(s[m].after(s[n]) || s[n].after(s[m]));
            if k < n {
                assert(!t[k].after(t[n]));
            }
            assert(false);
        }
        let s1 = s.drop_last();
        let t1 = t.drop_last();
        assert(s =~= s1.push(a));
        assert(t =~= t1.push(b));
        assert(s.to_multiset() =~= s1.to_multiset().insert(a));
        assert(t.to_multiset() =~= t1.to_multiset().insert(a));
        assert(s1.to_multiset() =~= s1.to_multiset().insert(a).remove(a));
        assert(t1.to_multiset() =~= t1.to_multiset().insert(a).remove(a));
        assert forall|i: int, j: int| 0 <= i < j < s1.len() implies !(#[trigger] s1[i]).after(
            #[trigger] s1[j],
        ) by {
            assert(s1[i] == s[i] && s1[j] == s[j]);
        }
        assert forall|i: int, j: int| 0 <= i < j < t1.len() implies !(#[trigger] t1[i]).after(
            #[trigger] t1[j],
        ) by {
            assert(t1[i] == t[i] && t1[j] == t[j]);
        }
        assert forall|i: int, j: int| 0 <= i < j < s1.len() implies (#[trigger] s1[i]).after(
            #[trigger] s1[j],
        ) || s1[j].after(s1[i]) by {
            assert(s1[i] == s[i] && s1[j] == s[j]);
        }
        order_is_unique(s1, t1);
    }
}

proof fn lemma_place_remove<T: Ranked>(s: Seq<T>, x: T, k: int) -> (j: int)
    requires
        in_order(s),
        0 <= k < s.len(),
    ensures
        0 <= j < place(s, x).len(),
        place(s, x)[j] == s[k],
        place(s, x).remove(j) == place(s.remove(k), x),
    decreases s.len(),
{
    lemma_place(s, x);
    let n = s.len() - 1;
    let t = s.drop_last();
    assert(in_order(t)) by {
        assert forall|a: int, b: int| 0 <= a < b < t.len() implies !(#[trigger] t[a]).after(
            #[trigger] t[b],
        ) by {
            assert(t[a] == s[a] && t[b] == s[b]);
        }
    }
    if s.last().after(x) {
        lemma_place(t, x);
        if k == n {
            assert(s.remove(k) =~= t);
            assert(place(s, x).remove(n + 1) =~= place(t, x));
            n + 1
        } else {
            let j = lemma_place_remove(t, x, k);
            assert(s.remove(k).drop_last() =~= t.remove(k));
            assert(s.remove(k).last() == s.last());
            assert(place(s, x).remove(j) =~= place(t, x).remove(j).push(s.last()));
            j
        }
    } else {
        let r = s.remove(k);
        if k == n {
            assert(r =~= t);
            if t.len() > 0 {
                assert(t.last() == s[n - 1] && s.last() == s[n]);
                assert(!s[n - 1].after(s[n]));
                T::carries_over(t.last(), s.last(), x);
            }
        } else {
            assert(r.last() == s.last());
        }
        assert(place(s, x).remove(k) =~= r.push(x));
        k
    }
}

proof fn lemma_place_at<T: Ranked>(s: Seq<T>, x: T) -> (j: int)
    ensures
        0 <= j < place(s, x).len(),
        place(s, x)[j] == x,
        place(s, x).remove(j) == s,
    decreases s.len(),
{
    if s.len() > 0 && s.last().after(x) {
        let j = lemma_place_at(s.drop_last(), x);
        assert(place(s, x).remove(j) =~= place(s.drop_last(), x).remove(j).push(s.last()));
        assert(s.drop_last().push(s.last()) =~= s);
        j
    } else {
        assert(s.push(x).remove(s.len() as int) =~= s);
        s.len() as int
    }
}

/// A value that is left out changes nothing in the order of the others.
pub proof fn sorted_without_one<T: Ranked>(s: Seq<T>, k: int) -> (j: int)
    requires
        0 <= k < s.len(),
    ensures
        0 <= j < sorted(s).len(),
        sorted(s)[j] == s[k],
        sorted(s).remove(j) == sorted(s.remove(k)),
    decreases s.len(),
{
    let t = s.drop_last();
    if k == s.len() - 1 {
        assert(s.remove(k) =~= t);
        lemma_place_at(sorted(t), s.last())
    } else {
        let i = sorted_without_one(t, k);
        sorted_is_ordered_and_complete(t);
        assert(s.remove(k).drop_last() =~= t.remove(k));
        assert(s.remove(k).last() == s.last());
        assert(t[k] == s[k]);
        lemma_place_remove(sorted(t), s.last(), i)
    }
}

proof fn lemma_place_alike<T: Ranked>(
    a: Seq<T>,
    b: Seq<T>,
    x: T,
    y: T,
    alike: spec_fn(T, T) -> bool,
)
    requires
        a.len() == b.len(),
        forall|i: int| 0 <= i < a.len() ==> alike(#[trigger] a[i], #[trigger] b[i]),
        alike(x, y),
        forall|s: T, t: T, u: T, v: T| #[trigger]
            alike(s, u) && #[trigger] alike(t, v) ==> s.after(t) == u.after(v),
    ensures
        place(a, x).len() == place(b, y).len(),
        forall|i: int|
            0 <= i < place(a, x).len() ==> alike(
                #[trigger] place(a, x)[i],
                #[trigger] place(b, y)[i],
            ),
    decreases a.len(),
{
    if a.len() > 0 {
        let n = a.len() - 1;
        assert(alike(a[n], b[n]));
        assert(a.last().after(x) == b.last().after(y));
        if a.last().after(x) {
            let s = a.drop_last();
            let t = b.drop_last();
            assert forall|i: int| 0 <= i < s.len() implies alike(#[trigger] s[i], #[trigger] t[i]) by {
                assert(s[i] == a[i] && t[i] == b[i]);
            }
            lemma_place_alike(s, t, x, y, alike);
        }
    }
}

/// Values that are alike, one for one, and have the same order among them are alike, one for one,
/// when they are put in order.
pub proof fn sorted_alike<T: Ranked>(a: Seq<T>, b: Seq<T>, alike: spec_fn(T, T) -> bool)
    requires
        a.len() == b.len(),
        forall|i: int| 0 <= i < a.len() ==> alike(#[trigger] a[i], #[trigger] b[i]),
        forall|s: T, t: T, u: T, v: T| #[trigger]
            alike(s, u) && #[trigger] alike(t, v) ==> s.after(t) == u.after(v),
    ensures
        sorted(a).len() == sorted(b).len(),
        forall|i: int|
            0 <= i < sorted(a).len() ==> alike(#[trigger] sorted(a)[i], #[trigger] sorted(b)[i]),
    decreases a.len(),
{
    if a.len() > 0 {
        let n = a.len() - 1;
        assert(alike(a[n], b[n]));
        let s = a.drop_last();
        let t = b.drop_last();
        assert forall|i: int| 0 <= i < s.len() implies alike(#[trigger] s[i], #[trigger] t[i]) by {
            assert(s[i] == a[i] && t[i] == b[i]);
        }
        sorted_alike(s, t, alike);
        lemma_place_alike(sorted(s), sorted(t), a.last(), b.last(), alike);
    }
}

} // verus!
