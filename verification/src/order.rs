//! Ordering rows the way the store's `ORDER BY` clauses do.
use vstd::prelude::*;

verus! {

/// A total preorder on a row type, with an executable test.
pub trait Ranked: Sized {
    /// `a` may come before `b`.
    spec fn precedes(a: Self, b: Self) -> bool;

    proof fn lemma_total(a: Self, b: Self)
        ensures
            Self::precedes(a, b) || Self::precedes(b, a),
    ;

    proof fn lemma_transitive(a: Self, b: Self, c: Self)
        requires
            Self::precedes(a, b),
            Self::precedes(b, c),
        ensures
            Self::precedes(a, c),
    ;

    fn comes_before(&self, other: &Self) -> (r: bool)
        ensures
            r == Self::precedes(*self, *other),
    ;
}

/// Every element may come before every later one.
pub open spec fn sorted<T: Ranked>(s: Seq<T>) -> bool {
    forall|i: int, j: int| 0 <= i < j < s.len() ==> T::precedes(s[i], s[j])
}

/// Arranges `v` in order: the result is sorted and holds exactly the
/// elements of `v`, each as often.
pub fn sort_rows<T: Ranked>(v: Vec<T>) -> (r: Vec<T>)
    ensures
        sorted(r@),
        r@.to_multiset() == v@.to_multiset(),
{
    broadcast use vstd::seq_lib::group_to_multiset_ensures, vstd::multiset::group_multiset_axioms;

    let ghost orig = v@;
    let mut v = v;
    let mut r: Vec<T> = Vec::new();
    while v.len() > 0
        invariant
            sorted(r@),
            r@.to_multiset().add(v@.to_multiset()) == orig.to_multiset(),
        decreases v@.len(),
    {
        let ghost before_v = v@;
        let x = v.pop().unwrap();
        assert(before_v == v@.push(x));
        let mut i: usize = 0;
        while i < r.len() && r[i].comes_before(&x)
            invariant
                i <= r@.len(),
                sorted(r@),
                forall|j: int| 0 <= j < i ==> T::precedes(r@[j], x),
            decreases r@.len() - i,
        {
            i = i + 1;
        }
        let ghost before_r = r@;
        proof {
            if i < r@.len() {
                T::lemma_total(r@[i as int], x);
            }
        }
        r.insert(i, x);
        assert(r@ == before_r.insert(i as int, x));
        assert forall|a: int, b: int| 0 <= a < b < r@.len() implies T::precedes(r@[a], r@[b]) by {
            if b < i {
                assert(r@[a] == before_r[a] && r@[b] == before_r[b]);
            } else if b == i {
                assert(r@[a] == before_r[a]);
            } else if a == i {
                assert(r@[b] == before_r[b - 1]);
                if b - 1 > i {
                    T::lemma_transitive(x, before_r[i as int], before_r[b - 1]);
                }
            } else if a < i {
                assert(r@[a] == before_r[a] && r@[b] == before_r[b - 1]);
                assert(T::precedes(before_r[a], x));
                T::lemma_total(before_r[i as int], x);
                if b - 1 > i {
                    T::lemma_transitive(x, before_r[i as int], before_r[b - 1]);
                }
                T::lemma_transitive(before_r[a], x, before_r[b - 1]);
            } else {
                assert(r@[a] == before_r[a - 1] && r@[b] == before_r[b - 1]);
            }
        }
        proof {
            vstd::seq_lib::to_multiset_insert(before_r, i as int, x);
        }
        assert(r@.to_multiset() == before_r.to_multiset().insert(x));
        assert(before_v.to_multiset() == v@.push(x).to_multiset());
        proof {
            v@.to_multiset_ensures();
        }
        assert(v@.push(x).to_multiset() =~= v@.to_multiset().insert(x));
        assert(r@.to_multiset().add(v@.to_multiset()) =~= before_r.to_multiset().add(
            before_v.to_multiset(),
        ));
    }
    assert(v@.to_multiset() =~= vstd::multiset::Multiset::<T>::empty());
    assert(r@.to_multiset().add(v@.to_multiset()) =~= r@.to_multiset());
    r
}


/// Rearranging a sequence rearranges its image under `f` the same way.
pub proof fn lemma_map_values_multiset<A, B>(s1: Seq<A>, s2: Seq<A>, f: spec_fn(A) -> B)
    requires
        s1.to_multiset() == s2.to_multiset(),
    ensures
        s1.map_values(f).to_multiset() == s2.map_values(f).to_multiset(),
    decreases s1.len(),
{
    broadcast use vstd::seq_lib::group_to_multiset_ensures, vstd::multiset::group_multiset_axioms;

    s1.to_multiset_ensures();
    s2.to_multiset_ensures();
    if s1.len() == 0 {
        assert(s2.len() == 0);
        assert(s1.map_values(f) =~= s2.map_values(f));
    } else {
        let x = s1.last();
        let t1 = s1.drop_last();
        assert(s1 =~= t1.push(x));
        t1.to_multiset_ensures();
        assert(s2.to_multiset().count(x) > 0);
        assert(s2.contains(x));
        let j = choose|j: int| 0 <= j < s2.len() && s2[j] == x;
        let t2 = s2.remove(j);
        assert(t2.to_multiset() =~= s2.to_multiset().remove(x));
        assert(t1.to_multiset() =~= s1.to_multiset().remove(x));
        lemma_map_values_multiset(t1, t2, f);
        let m1 = s1.map_values(f);
        let m2 = s2.map_values(f);
        assert(m1 =~= t1.map_values(f).push(f(x)));
        t1.map_values(f).to_multiset_ensures();
        assert(t2.map_values(f) =~= m2.remove(j));
        m2.to_multiset_ensures();
        assert(m2.remove(j).to_multiset() =~= m2.to_multiset().remove(f(x)));
        assert(m2.to_multiset().count(f(x)) > 0) by {
            assert(m2[j] == f(x));
            assert(m2.contains(f(x)));
        }
        assert(m1.to_multiset() =~= m2.to_multiset());
    }
}

} // verus!
