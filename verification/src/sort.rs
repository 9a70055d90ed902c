//! Stable insertion sort by an integer key, specified at the level of the
//! sorted values' mathematical models.
//!
//! The specification-level sort is pinned down for callers by two facts,
//! proved below: the result is sorted by key, and for every key the
//! subsequence of elements carrying that key is exactly the input's —
//! which is what a stable sort means.

use vstd::prelude::*;

verus! {

/// A type sortable by a `u64` key derived from its model.
pub trait SortKey: View + Sized {
    /// The sort key of a model value.
    spec fn skey(v: Self::V) -> u64;

    /// The sort key, computed.
    fn exec_key(&self) -> (k: u64)
        ensures
            k == Self::skey(self@),
    ;
}

/// The models of a sequence of values.
pub open spec fn views_of<T: View>(s: Seq<T>) -> Seq<T::V> {
    s.map_values(|t: T| t@)
}

/// Inserts a model after every element whose key is at most its own.
pub open spec fn spec_insert<T: SortKey>(s: Seq<T::V>, x: T::V) -> Seq<T::V>
    decreases s.len(),
{
    if s.len() > 0 && T::skey(x) < T::skey(s.last()) {
        spec_insert::<T>(s.drop_last(), x).push(s.last())
    } else {
        s.push(x)
    }
}

/// Stable insertion sort of a sequence of models.
pub open spec fn spec_sort<T: SortKey>(s: Seq<T::V>) -> Seq<T::V>
    decreases s.len(),
{
    if s.len() == 0 {
        Seq::empty()
    } else {
        spec_insert::<T>(spec_sort::<T>(s.drop_last()), s.last())
    }
}

/// Non-decreasing by key.
pub open spec fn sorted_by_key<T: SortKey>(s: Seq<T::V>) -> bool {
    forall|i: int, j: int| 0 <= i < j < s.len() ==> T::skey(s[i]) <= T::skey(s[j])
}

/// Membership in one key class, as a function value, so that every use
/// denotes the same predicate.
pub open spec fn key_pred<T: SortKey>(k: u64) -> spec_fn(T::V) -> bool {
    |v: T::V| T::skey(v) == k
}

/// The subsequence of elements with a given key.
pub open spec fn with_key<T: SortKey>(s: Seq<T::V>, k: u64) -> Seq<T::V> {
    s.filter(key_pred::<T>(k))
}

pub proof fn lemma_filter_push<A>(s: Seq<A>, p: spec_fn(A) -> bool, x: A)
    ensures
        (s.push(x)).filter(p) == if p(x) {
            s.filter(p).push(x)
        } else {
            s.filter(p)
        },
{
    reveal(Seq::filter);
    assert((s.push(x)).drop_last() =~= s);
}

/// Every element of a filtered sequence occurs in the original.
pub proof fn lemma_filter_elems<A>(s: Seq<A>, p: spec_fn(A) -> bool)
    ensures
        forall|i: int|
            0 <= i < s.filter(p).len() ==> exists|k: int|
                0 <= k < s.len() && s[k] == #[trigger] s.filter(p)[i],
    decreases s.len(),
{
    reveal(Seq::filter);
    if s.len() > 0 {
        let dl = s.drop_last();
        lemma_filter_elems(dl, p);
        let r = s.filter(p);
        assert forall|i: int| 0 <= i < r.len() implies exists|k: int|
            0 <= k < s.len() && s[k] == #[trigger] r[i] by {
            if p(s.last()) && i == r.len() - 1 {
                assert(s[s.len() - 1] == r[i]);
            } else {
                assert(r[i] == dl.filter(p)[i]);
                let ghost k0 = choose|k: int| 0 <= k < dl.len() && dl[k] == dl.filter(p)[i];
                assert(s[k0] == r[i]);
            }
        }
    }
}

/// Filtering keeps a projection's pairwise distinctness.
pub proof fn lemma_filter_distinct<A, B>(s: Seq<A>, p: spec_fn(A) -> bool, f: spec_fn(A) -> B)
    requires
        forall|i: int, j: int| 0 <= i < j < s.len() ==> f(s[i]) != f(s[j]),
    ensures
        forall|i: int, j: int|
            0 <= i < j < s.filter(p).len() ==> f(#[trigger] s.filter(p)[i]) != f(
                #[trigger] s.filter(p)[j],
            ),
    decreases s.len(),
{
    reveal(Seq::filter);
    if s.len() > 0 {
        let dl = s.drop_last();
        lemma_filter_distinct(dl, p, f);
        lemma_filter_elems(dl, p);
        let r = s.filter(p);
        assert forall|i: int, j: int| 0 <= i < j < r.len() implies f(#[trigger] r[i]) != f(
            #[trigger] r[j],
        ) by {
            if p(s.last()) && j == r.len() - 1 {
                assert(r[i] == dl.filter(p)[i]);
                let ghost k0 = choose|k: int| 0 <= k < dl.len() && dl[k] == dl.filter(p)[i];
                assert(f(s[k0]) != f(s[s.len() - 1]));
            } else {
                assert(r[i] == dl.filter(p)[i]);
                assert(r[j] == dl.filter(p)[j]);
            }
        }
    }
}

pub proof fn lemma_insert_len<T: SortKey>(s: Seq<T::V>, x: T::V)
    ensures
        spec_insert::<T>(s, x).len() == s.len() + 1,
    decreases s.len(),
{
    if s.len() > 0 && T::skey(x) < T::skey(s.last()) {
        lemma_insert_len::<T>(s.drop_last(), x);
    }
}

pub proof fn lemma_sort_len<T: SortKey>(s: Seq<T::V>)
    ensures
        spec_sort::<T>(s).len() == s.len(),
    decreases s.len(),
{
    if s.len() > 0 {
        lemma_sort_len::<T>(s.drop_last());
        lemma_insert_len::<T>(spec_sort::<T>(s.drop_last()), s.last());
    }
}

pub proof fn lemma_insert_sorted<T: SortKey>(s: Seq<T::V>, x: T::V)
    requires
        sorted_by_key::<T>(s),
    ensures
        sorted_by_key::<T>(spec_insert::<T>(s, x)),
    decreases s.len(),
{
    lemma_insert_len::<T>(s, x);
    if s.len() > 0 && T::skey(x) < T::skey(s.last()) {
        lemma_insert_sorted::<T>(s.drop_last(), x);
        lemma_insert_len::<T>(s.drop_last(), x);
        let r = spec_insert::<T>(s.drop_last(), x).push(s.last());
        let inner = spec_insert::<T>(s.drop_last(), x);
        assert forall|i: int, j: int| 0 <= i < j < r.len() implies T::skey(r[i]) <= T::skey(
            r[j],
        ) by {
            if j < r.len() - 1 {
                assert(T::skey(inner[i]) <= T::skey(inner[j]));
            } else {
                // the moved last element bounds everything inserted before it
                assert(r[j] == s.last());
                lemma_insert_elems::<T>(s.drop_last(), x);
                if r[i] == x {
                    assert(T::skey(r[i]) <= T::skey(r[j]));
                } else {
                    let ghost k = choose|k: int|
                        0 <= k < s.drop_last().len() && s.drop_last()[k] == inner[i];
                    assert(s[k] == s.drop_last()[k]);
                    assert(T::skey(s[k]) <= T::skey(s.last()));
                }
            }
        }
    }
}

/// Every element of an insertion result is the inserted value or one of
/// the original elements.
pub proof fn lemma_insert_elems<T: SortKey>(s: Seq<T::V>, x: T::V)
    ensures
        forall|i: int|
            0 <= i < spec_insert::<T>(s, x).len() ==> (#[trigger] spec_insert::<T>(s, x)[i] == x
                || (exists|k: int| 0 <= k < s.len() && s[k] == spec_insert::<T>(s, x)[i])),
    decreases s.len(),
{
    lemma_insert_len::<T>(s, x);
    if s.len() > 0 && T::skey(x) < T::skey(s.last()) {
        lemma_insert_elems::<T>(s.drop_last(), x);
        lemma_insert_len::<T>(s.drop_last(), x);
        let r = spec_insert::<T>(s, x);
        assert forall|i: int|
            0 <= i < r.len() implies (r[i] == x || (exists|k: int|
            0 <= k < s.len() && s[k] == r[i])) by {
            if i == r.len() - 1 {
                assert(s[s.len() - 1] == r[i]);
            } else {
                let inner = spec_insert::<T>(s.drop_last(), x);
                assert(r[i] == inner[i]);
                if inner[i] != x {
                    let ghost k = choose|k: int|
                        0 <= k < s.drop_last().len() && s.drop_last()[k] == inner[i];
                    assert(s[k] == inner[i]);
                }
            }
        }
    }
}

/// Insertion appends its element at the end of that element's key class
/// and leaves every key class otherwise unchanged.
pub proof fn lemma_insert_with_key<T: SortKey>(s: Seq<T::V>, x: T::V, k: u64)
    ensures
        with_key::<T>(spec_insert::<T>(s, x), k) == with_key::<T>(s.push(x), k),
    decreases s.len(),
{
    let p = key_pred::<T>(k);
    if s.len() > 0 && T::skey(x) < T::skey(s.last()) {
        let dl = s.drop_last();
        lemma_insert_with_key::<T>(dl, x, k);
        lemma_filter_push(spec_insert::<T>(dl, x), p, s.last());
        lemma_filter_push(dl, p, x);
        lemma_filter_push(s, p, x);
        lemma_filter_push(dl, p, s.last());
        assert(dl.push(s.last()) =~= s);
        // x's key is strictly below the moved element's, so the two are
        // never in the same class
        assert(!(p(x) && p(s.last())));
    }
}

/// The sort keeps every key class exactly as the input had it.
pub proof fn lemma_sort_with_key<T: SortKey>(s: Seq<T::V>, k: u64)
    ensures
        with_key::<T>(spec_sort::<T>(s), k) == with_key::<T>(s, k),
    decreases s.len(),
{
    if s.len() > 0 {
        lemma_sort_with_key::<T>(s.drop_last(), k);
        lemma_insert_with_key::<T>(spec_sort::<T>(s.drop_last()), s.last(), k);
        let p = key_pred::<T>(k);
        lemma_filter_push(spec_sort::<T>(s.drop_last()), p, s.last());
        lemma_filter_push(s.drop_last(), p, s.last());
        assert(s.drop_last().push(s.last()) =~= s);
    }
}

/// The sort is sorted.
pub proof fn lemma_sort_sorted<T: SortKey>(s: Seq<T::V>)
    ensures
        sorted_by_key::<T>(spec_sort::<T>(s)),
    decreases s.len(),
{
    if s.len() > 0 {
        lemma_sort_sorted::<T>(s.drop_last());
        lemma_insert_sorted::<T>(spec_sort::<T>(s.drop_last()), s.last());
    }
}

/// Every element of the sort is an element of the input.
pub proof fn lemma_sort_elems<T: SortKey>(s: Seq<T::V>)
    ensures
        forall|i: int|
            0 <= i < spec_sort::<T>(s).len() ==> exists|k: int|
                0 <= k < s.len() && s[k] == #[trigger] spec_sort::<T>(s)[i],
    decreases s.len(),
{
    if s.len() > 0 {
        lemma_sort_elems::<T>(s.drop_last());
        lemma_insert_elems::<T>(spec_sort::<T>(s.drop_last()), s.last());
        let r = spec_sort::<T>(s);
        assert forall|i: int| 0 <= i < r.len() implies exists|k: int|
            0 <= k < s.len() && s[k] == #[trigger] r[i] by {
            if r[i] == s.last() {
                assert(s[s.len() - 1] == r[i]);
            } else {
                let inner = spec_sort::<T>(s.drop_last());
                if exists|k: int| 0 <= k < inner.len() && inner[k] == r[i] {
                    let ghost k0 = choose|k: int|
                        0 <= k < s.drop_last().len() && s.drop_last()[k] == r[i];
                    assert(s[k0] == r[i]);
                }
            }
        }
    }
}

/// Inserts a value into an already sorted vector, after every element
/// whose key is at most its own.
fn insert_sorted<T: SortKey>(out: &mut Vec<T>, x: T)
    ensures
        views_of(final(out)@) == spec_insert::<T>(views_of(old(out)@), x@),
{
    let ghost s = views_of(out@);
    let xk = x.exec_key();
    let mut j: usize = out.len();
    proof {
        assert(s.take(out@.len() as int) =~= s);
        assert(views_of(out@).len() == out@.len());
    }
    while j > 0 && xk < out[j - 1].exec_key()
        invariant
            j <= out@.len(),
            s == views_of(out@),
            s.len() == out@.len(),
            xk == T::skey(x@),
            forall|i: int| 0 <= i < s.len() ==> s[i] == #[trigger] out@[i]@,
            spec_insert::<T>(s, x@) == spec_insert::<T>(s.take(j as int), x@) + s.skip(j as int),
        decreases j,
    {
        proof {
            let tj = s.take(j as int);
            assert(tj.last() == s[j - 1]);
            assert(tj.drop_last() =~= s.take(j - 1));
            assert(spec_insert::<T>(tj, x@) == spec_insert::<T>(s.take(j - 1), x@).push(s[j - 1]));
            assert(spec_insert::<T>(s.take(j - 1), x@).push(s[j - 1]) + s.skip(j as int)
                =~= spec_insert::<T>(s.take(j - 1), x@) + s.skip(j - 1));
        }
        j = j - 1;
    }
    proof {
        let tj = s.take(j as int);
        if j > 0 {
            assert(tj.last() == s[j - 1]);
            assert(!(T::skey(x@) < T::skey(tj.last())));
        }
        assert(spec_insert::<T>(tj, x@) == tj.push(x@));
    }
    out.insert(j, x);
    proof {
        assert(views_of(out@) =~= s.take(j as int).push(x@) + s.skip(j as int));
    }
}

/// Sorts a vector by key; stable: elements with equal keys keep their
/// input order.
pub fn sort_by_key<T: SortKey>(v: Vec<T>) -> (r: Vec<T>)
    ensures
        views_of(r@) == spec_sort::<T>(views_of(v@)),
{
    let ghost orig = views_of(v@);
    let mut rest = v;
    let mut out: Vec<T> = Vec::new();
    proof {
        assert(views_of(out@) =~= spec_sort::<T>(orig.take(0)));
        assert(views_of(rest@) =~= orig.skip(0));
    }
    let ghost done: int = 0;
    while rest.len() > 0
        invariant
            0 <= done,
            done + rest@.len() == orig.len(),
            views_of(rest@) == orig.skip(done),
            views_of(out@) == spec_sort::<T>(orig.take(done)),
        decreases rest@.len(),
    {
        let ghost pre = rest@;
        let x = rest.remove(0);
        proof {
            assert(views_of(pre)[0] == pre[0]@);
            assert(x@ == orig[done]);
            assert(views_of(rest@) =~= views_of(pre).skip(1));
            assert(views_of(pre).skip(1) =~= orig.skip(done + 1));
            let t1 = orig.take(done + 1);
            assert(t1.drop_last() =~= orig.take(done));
            assert(t1.last() == orig[done]);
        }
        insert_sorted(&mut out, x);
        proof {
            done = done + 1;
        }
    }
    proof {
        assert(orig.take(done) =~= orig);
    }
    out
}

} // verus!
