//! Stable ordering by a numeric key, highest first (what `sort_by` with a
//! descending comparison does).
use vstd::prelude::*;

verus! {

/// A value with a numeric key to order by.
pub trait Keyed {
    spec fn key(&self) -> int;
}

/// An executable value whose view has a key, and which can compute it.
pub trait KeyedExec: View + Sized where Self::V: Keyed {
    fn key_exec(&self) -> (k: u64)
        ensures
            k as int == self@.key(),
    ;
}

/// The views of a sequence of values.
pub open spec fn views<T: View>(s: Seq<T>) -> Seq<T::V> {
    s.map_values(|x: T| x@)
}

/// The first index at or after `i` whose key is below `k` (or the length).
pub open spec fn first_below<V: Keyed>(s: Seq<V>, k: int, i: int) -> int
    decreases s.len() - i,
{
    if i < 0 || i >= s.len() {
        s.len() as int
    } else if s[i].key() < k {
        i
    } else {
        first_below(s, k, i + 1)
    }
}

/// `x` placed after every element of `s` from the front whose key is at
/// least its own.
pub open spec fn insert_desc<V: Keyed>(s: Seq<V>, x: V) -> Seq<V> {
    let p = first_below(s, x.key(), 0);
    s.take(p).push(x) + s.skip(p)
}

/// The stable sort of `s` by key, highest first.
pub open spec fn sort_desc<V: Keyed>(s: Seq<V>) -> Seq<V>
    decreases s.len(),
{
    if s.len() == 0 {
        s
    } else {
        insert_desc(sort_desc(s.drop_last()), s.last())
    }
}

/// Keys never increase along the sequence.
pub open spec fn sorted_desc<V: Keyed>(s: Seq<V>) -> bool {
    forall|i: int, j: int| 0 <= i < j < s.len() ==> (#[trigger] s[i]).key() >= (#[trigger] s[j]).key()
}

pub proof fn lemma_first_below_bounds<V: Keyed>(s: Seq<V>, k: int, i: int)
    requires
        0 <= i <= s.len(),
    ensures
        i <= first_below(s, k, i) <= s.len(),
        forall|j: int| i <= j < first_below(s, k, i) ==> (#[trigger] s[j]).key() >= k,
        first_below(s, k, i) < s.len() ==> s[first_below(s, k, i)].key() < k,
    decreases s.len() - i,
{
    if i < s.len() && s[i].key() >= k {
        lemma_first_below_bounds(s, k, i + 1);
    }
}

/// Inserting into a sorted sequence keeps it sorted.
pub proof fn lemma_insert_sorted<V: Keyed>(s: Seq<V>, x: V)
    requires
        sorted_desc(s),
    ensures
        sorted_desc(insert_desc(s, x)),
        insert_desc(s, x).len() == s.len() + 1,
        insert_desc(s, x).to_multiset() == s.to_multiset().insert(x),
{
    let p = first_below(s, x.key(), 0);
    lemma_first_below_bounds(s, x.key(), 0);
    let r = insert_desc(s, x);
    assert forall|i: int, j: int| 0 <= i < j < r.len() implies (#[trigger] r[i]).key() >= (
    #[trigger] r[j]).key() by {
        if i < p && j < p {
            assert(r[i] == s[i] && r[j] == s[j]);
        } else if i < p && j == p {
        } else if i < p {
            assert(r[i] == s[i] && r[j] == s[j - 1]);
        } else if i == p {
            assert(r[j] == s[j - 1]);
            if p < s.len() {
                assert(s[p].key() >= s[j - 1].key() || p == j - 1);
            }
        } else {
            assert(r[i] == s[i - 1] && r[j] == s[j - 1]);
        }
    }
    vstd::seq_lib::lemma_multiset_commutative(s.take(p).push(x), s.skip(p));
    vstd::seq_lib::lemma_multiset_commutative(s.take(p), s.skip(p));
    assert(s.take(p) + s.skip(p) =~= s);
    s.take(p).to_multiset_ensures();
}

/// The stable sort is sorted and holds the same elements.
pub proof fn lemma_sort_desc<V: Keyed>(s: Seq<V>)
    ensures
        sorted_desc(sort_desc(s)),
        sort_desc(s).len() == s.len(),
        sort_desc(s).to_multiset() == s.to_multiset(),
    decreases s.len(),
{
    if s.len() > 0 {
        lemma_sort_desc(s.drop_last());
        lemma_insert_sorted(sort_desc(s.drop_last()), s.last());
        assert(s.drop_last().push(s.last()) =~= s);
        s.drop_last().to_multiset_ensures();
    }
}

/// The elements of `v` in stable order of their keys, highest first.
pub fn stable_sort_desc<T: KeyedExec>(v: Vec<T>) -> (r: Vec<T>)
    where
        T::V: Keyed,
    ensures
        views(r@) == sort_desc(views(v@)),
{
    let ghost orig = views(v@);
    let mut rest = v;
    let mut r: Vec<T> = Vec::new();
    let ghost mut done: int = 0;
    while rest.len() > 0
        invariant
            0 <= done <= orig.len(),
            views(rest@) == orig.subrange(done, orig.len() as int),
            views(r@) == sort_desc(orig.take(done)),
        decreases rest.len(),
    {
        let ghost old_rest = rest@;
        assert(views(old_rest).len() == old_rest.len());
        assert(views(old_rest)[0] == orig[done]);
        let x = rest.remove(0);
        assert(x@ == orig[done]);
        assert(views(rest@) =~= orig.subrange(done + 1, orig.len() as int)) by {
            assert(rest@ =~= old_rest.subrange(1, old_rest.len() as int));
            assert forall|i: int| 0 <= i < rest@.len() implies views(rest@)[i] == orig[done + 1
                + i] by {
                assert(views(rest@)[i] == rest@[i]@);
                assert(rest@[i] == old_rest[i + 1]);
                assert(views(old_rest)[i + 1] == old_rest[i + 1]@);
            }
        }
        insert_desc_exec(&mut r, x);
        proof {
            assert(orig.take(done + 1).drop_last() =~= orig.take(done));
            assert(orig.take(done + 1).last() == orig[done]);
            done = done + 1;
        }
    }
    assert(orig.take(done) =~= orig);
    r
}

/// Inserts `x` into `r` after every element from the front whose key is at
/// least its own.
pub fn insert_desc_exec<T: KeyedExec>(r: &mut Vec<T>, x: T)
    where
        T::V: Keyed,
    ensures
        views(final(r)@) == insert_desc(views(old(r)@), x@),
{
    let ghost sorted = views(r@);
    let k = x.key_exec();
    let mut p: usize = 0;
    while p < r.len() && r[p].key_exec() >= k
        invariant
            views(r@) == sorted,
            p <= r@.len(),
            x@.key() == k as int,
            first_below(sorted, k as int, 0) == first_below(sorted, k as int, p as int),
        decreases r@.len() - p,
    {
        assert(sorted[p as int] == r@[p as int]@);
        p = p + 1;
    }
    proof {
        if p < r@.len() {
            assert(sorted[p as int] == r@[p as int]@);
        }
    }
    r.insert(p, x);
    assert(views(r@) =~= sorted.take(p as int).push(x@) + sorted.skip(p as int));
}

} // verus!
