//! Ordered sets of texts.
use crate::text;
use vstd::prelude::*;
use vstd::string::*;

verus! {

/// `a` stands before `b` in a dictionary that orders characters by their code points.
pub open spec fn precedes(a: Seq<char>, b: Seq<char>) -> bool
    decreases b.len(),
{
    if b.len() == 0 {
        false
    } else if a.len() == 0 {
        true
    } else if a[0] != b[0] {
        a[0] < b[0]
    } else {
        precedes(a.drop_first(), b.drop_first())
    }
}

/// Whether `a` stands before `b`.
pub fn before(a: &str, b: &str) -> (r: bool)
    ensures
        r == precedes(a@, b@),
{
    let v: Vec<char> = text::chars_of(a);
    let w: Vec<char> = text::chars_of(b);
    let mut i: usize = 0;
    assert(a@.skip(0) =~= a@);
    assert(b@.skip(0) =~= b@);
    while i < v.len() && i < w.len()
        invariant
            i <= v.len(),
            i <= w.len(),
            v@ == a@,
            w@ == b@,
            precedes(a@, b@) == precedes(a@.skip(i as int), b@.skip(i as int)),
        decreases v.len() - i,
    {
        assert(a@.skip(i as int)[0] == v@[i as int]);
        assert(b@.skip(i as int)[0] == w@[i as int]);
        if v[i] != w[i] {
            return v[i] < w[i];
        }
        assert(a@.skip(i as int).drop_first() =~= a@.skip(i + 1));
        assert(b@.skip(i as int).drop_first() =~= b@.skip(i + 1));
        i = i + 1;
    }
    i < w.len()
}

/// Of two texts at most one stands before the other, and one does unless they are the same.
pub proof fn lemma_precedes_total(a: Seq<char>, b: Seq<char>)
    ensures
        !(precedes(a, b) && precedes(b, a)),
        precedes(a, b) || precedes(b, a) || a == b,
        a == b ==> !precedes(a, b),
    decreases b.len(),
{
    if a.len() > 0 && b.len() > 0 && a[0] == b[0] {
        lemma_precedes_total(a.drop_first(), b.drop_first());
        if a.drop_first() == b.drop_first() {
            assert(a =~= seq![a[0]] + a.drop_first());
            assert(b =~= seq![b[0]] + b.drop_first());
        }
    } else if a.len() == 0 && b.len() == 0 {
        assert(a =~= b);
    }
}

/// Standing before carries over.
pub proof fn lemma_precedes_transitive(a: Seq<char>, b: Seq<char>, c: Seq<char>)
    requires
        precedes(a, b),
        precedes(b, c),
    ensures
        precedes(a, c),
    decreases c.len(),
{
    if a.len() > 0 && a[0] == b[0] && b[0] == c[0] {
        lemma_precedes_transitive(a.drop_first(), b.drop_first(), c.drop_first());
    }
}

/// Each text stands before the next.
pub open spec fn ascending(s: Seq<Seq<char>>) -> bool {
    forall|i: int, j: int| 0 <= i < j < s.len() ==> precedes(#[trigger] s[i], #[trigger] s[j])
}

/// An ordered set with one more text.
pub open spec fn with(s: Seq<Seq<char>>, x: Seq<char>) -> Seq<Seq<char>>
    decreases s.len(),
{
    if s.len() == 0 || precedes(s.last(), x) {
        s.push(x)
    } else if s.last() == x {
        s
    } else {
        with(s.drop_last(), x).push(s.last())
    }
}

/// The ordered set of the texts of a list.
pub open spec fn set_of(list: Seq<Seq<char>>) -> Seq<Seq<char>>
    decreases list.len(),
{
    if list.len() == 0 {
        list
    } else {
        with(set_of(list.drop_last()), list.last())
    }
}

/// A text put into an ordered set is in it, with all that was, and the set stays in order.
pub proof fn lemma_with(s: Seq<Seq<char>>, x: Seq<char>)
    requires
        ascending(s),
    ensures
        ascending(with(s, x)),
        forall|y: Seq<char>| #[trigger] with(s, x).contains(y) <==> s.contains(y) || y == x,
    decreases s.len(),
{
    let r = with(s, x);
    if s.len() == 0 || precedes(s.last(), x) {
        assert forall|i: int, j: int| 0 <= i < j < r.len() implies precedes(
            #[trigger] r[i],
            #[trigger] r[j],
        ) by {
            if j == s.len() {
                if i < s.len() - 1 {
                    assert(precedes(s[i], s[s.len() - 1]));
                    lemma_precedes_transitive(s[i], s.last(), x);
                }
            }
        }
        assert forall|y: Seq<char>| r.contains(y) <==> s.contains(y) || y == x by {
            assert(r[s.len() as int] == x);
            if s.contains(y) {
                let k = choose|k: int| 0 <= k < s.len() && s[k] == y;
                assert(r[k] == y);
            }
            if r.contains(y) {
                let k = choose|k: int| 0 <= k < r.len() && r[k] == y;
                if k < s.len() {
                    assert(s[k] == y);
                }
            }
        }
    } else if s.last() == x {
        assert(s[s.len() - 1] == x);
    } else {
        let rest = s.drop_last();
        let q = with(rest, x);
        assert forall|i: int, j: int| 0 <= i < j < rest.len() implies precedes(
            #[trigger] rest[i],
            #[trigger] rest[j],
        ) by {
            assert(rest[i] == s[i] && rest[j] == s[j]);
        }
        lemma_with(rest, x);
        lemma_precedes_total(s.last(), x);
        assert forall|i: int, j: int| 0 <= i < j < r.len() implies precedes(
            #[trigger] r[i],
            #[trigger] r[j],
        ) by {
            if j < q.len() {
                assert(r[i] == q[i] && r[j] == q[j]);
            } else {
                assert(r[i] == q[i]);
                assert(q.contains(q[i]));
                if q[i] != x {
                    assert(rest.contains(q[i]));
                    let k = choose|k: int| 0 <= k < rest.len() && rest[k] == q[i];
                    assert(s[k] == q[i]);
                    assert(precedes(s[k], s[s.len() - 1]));
                }
            }
        }
        assert forall|y: Seq<char>| r.contains(y) <==> s.contains(y) || y == x by {
            assert(r[q.len() as int] == s.last());
            if s.contains(y) {
                let k = choose|k: int| 0 <= k < s.len() && s[k] == y;
                if k < rest.len() {
                    assert(rest[k] == y);
                    assert(q.contains(y));
                    let m = choose|m: int| 0 <= m < q.len() && q[m] == y;
                    assert(r[m] == y);
                }
            }
            if y == x {
                assert(q.contains(y));
                let m = choose|m: int| 0 <= m < q.len() && q[m] == y;
                assert(r[m] == y);
            }
            if r.contains(y) {
                let k = choose|k: int| 0 <= k < r.len() && r[k] == y;
                if k < q.len() {
                    assert(q[k] == y);
                    assert(q.contains(y));
                    if y != x {
                        let m = choose|m: int| 0 <= m < rest.len() && rest[m] == y;
                        assert(s[m] == y);
                    }
                } else {
                    assert(s[s.len() - 1] == y);
                }
            }
        }
    }
}

/// The set of a list is in order, repeats nothing and holds what the list holds.
pub proof fn set_is_ordered_and_complete(list: Seq<Seq<char>>)
    ensures
        ascending(set_of(list)),
        forall|y: Seq<char>| set_of(list).contains(y) <==> list.contains(y),
    decreases list.len(),
{
    if list.len() > 0 {
        let rest = list.drop_last();
        set_is_ordered_and_complete(rest);
        lemma_with(set_of(rest), list.last());
        assert forall|y: Seq<char>| set_of(list).contains(y) <==> list.contains(y) by {
            if list.contains(y) {
                let k = choose|k: int| 0 <= k < list.len() && list[k] == y;
                if k < rest.len() {
                    assert(rest[k] == y);
                }
            }
            if rest.contains(y) {
                let k = choose|k: int| 0 <= k < rest.len() && rest[k] == y;
                assert(list[k] == y);
            }
            assert(list[list.len() - 1] == list.last());
        }
    } else {
        assert forall|y: Seq<char>| set_of(list).contains(y) <==> list.contains(y) by {}
    }
}

/// Puts a text into an ordered set.
pub fn insert(v: &mut Vec<String>, x: String)
    ensures
        text::texts(final(v)@) == with(text::texts(old(v)@), x@),
{
    let ghost s = text::texts(v@);
    let mut n: usize = v.len();
    assert(s.take(n as int) =~= s);
    assert(s.skip(n as int) =~= Seq::<Seq<char>>::empty());
    assert(with(s, x@) =~= with(s.take(n as int), x@) + s.skip(n as int));
    while n > 0 && before(x.as_str(), v[n - 1].as_str())
        invariant
            n <= v.len(),
            s == text::texts(v@),
            *old(v) == *v,
            with(s, x@) == with(s.take(n as int), x@) + s.skip(n as int),
        decreases n,
    {
        proof {
            let t = s.take(n as int);
            assert(t.last() == v@[n - 1]@);
            lemma_precedes_total(t.last(), x@);
            assert(t.drop_last() =~= s.take(n - 1));
            assert(with(t, x@) == with(s.take(n - 1), x@).push(s[n - 1]));
            assert(with(t, x@) + s.skip(n as int) =~= with(s.take(n - 1), x@) + s.skip(n - 1));
        }
        n = n - 1;
    }
    proof {
        let t = s.take(n as int);
        if n > 0 {
            assert(t.last() == v@[n - 1]@);
            lemma_precedes_total(t.last(), x@);
        }
    }
    if n > 0 && text::same(v[n - 1].as_str(), x.as_str()) {
        assert(s.take(n as int) + s.skip(n as int) =~= s);
        return;
    }
    let ghost whole = v@;
    assert(with(s.take(n as int), x@) == s.take(n as int).push(x@));
    v.insert(n, x);
    assert(text::texts(v@) =~= s.take(n as int).push(x@) + s.skip(n as int));
}

} // verus!
