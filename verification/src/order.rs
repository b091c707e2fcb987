//! Stable sorting: what it means, what follows from it, and a sort of
//! vectors that is proved to do it.

use vstd::prelude::*;

verus! {

/// Whether `lt` is a strict order in which being unordered is transitive:
/// nothing comes before itself, `lt` is transitive, and whatever comes
/// before `c` comes before `b` or has `b` before `c`.
pub open spec fn strict_weak_order<T>(lt: spec_fn(T, T) -> bool) -> bool {
    &&& forall|a: T| !#[trigger] lt(a, a)
    &&& forall|a: T, b: T, c: T| #[trigger] lt(a, b) && #[trigger] lt(b, c) ==> lt(a, c)
    &&& forall|a: T, b: T, c: T| !#[trigger] lt(a, b) && !#[trigger] lt(b, c) ==> !lt(a, c)
}

/// Whether no element of `s` comes strictly before an earlier one.
pub open spec fn ordered<T>(s: Seq<T>, lt: spec_fn(T, T) -> bool) -> bool {
    forall|i: int, j: int| 0 <= i < j < s.len() ==> !lt(#[trigger] s[j], #[trigger] s[i])
}

/// Where `x` goes into `s` so that it stands behind everything that does
/// not come after it: just before the trailing run of elements that `x`
/// comes strictly before.
pub open spec fn insert_point<T>(s: Seq<T>, x: T, lt: spec_fn(T, T) -> bool) -> int
    decreases s.len(),
{
    if s.len() == 0 || !lt(x, s.last()) {
        s.len() as int
    } else {
        insert_point(s.drop_last(), x, lt)
    }
}

/// The stable sort of `s`: its elements taken in turn, each put behind
/// those already placed that do not come after it. Elements that neither
/// comes before the other keep the order they had in `s`.
pub open spec fn stable_sort<T>(s: Seq<T>, lt: spec_fn(T, T) -> bool) -> Seq<T>
    decreases s.len(),
{
    if s.len() == 0 {
        s
    } else {
        let placed = stable_sort(s.drop_last(), lt);
        placed.insert(insert_point(placed, s.last(), lt), s.last())
    }
}

/// The insertion point lies within `s`, `x` comes before all that follows
/// it and not before what precedes it.
pub proof fn lemma_insert_point<T>(s: Seq<T>, x: T, lt: spec_fn(T, T) -> bool)
    ensures
        0 <= insert_point(s, x, lt) <= s.len(),
        forall|j: int| insert_point(s, x, lt) <= j < s.len() ==> lt(x, #[trigger] s[j]),
        insert_point(s, x, lt) > 0 ==> !lt(x, s[insert_point(s, x, lt) - 1]),
    decreases s.len(),
{
    if s.len() == 0 || !lt(x, s.last()) {
    } else {
        lemma_insert_point(s.drop_last(), x, lt);
        let p = insert_point(s.drop_last(), x, lt);
        assert forall|j: int| p <= j < s.len() implies lt(x, #[trigger] s[j]) by {
            if j < s.len() - 1 {
                assert(s.drop_last()[j] == s[j]);
            }
        }
        if p > 0 {
            assert(s.drop_last()[p - 1] == s[p - 1]);
        }
    }
}

/// The insertion point is the only place with those properties.
pub proof fn lemma_insert_point_is<T>(s: Seq<T>, x: T, lt: spec_fn(T, T) -> bool, p: int)
    requires
        0 <= p <= s.len(),
        forall|j: int| p <= j < s.len() ==> lt(x, #[trigger] s[j]),
        p > 0 ==> !lt(x, s[p - 1]),
    ensures
        insert_point(s, x, lt) == p,
    decreases s.len(),
{
    if s.len() == 0 {
    } else if !lt(x, s.last()) {
        if p < s.len() {
            assert(lt(x, s[s.len() - 1]));
        }
    } else {
        let t = s.drop_last();
        assert forall|j: int| p <= j < t.len() implies lt(x, #[trigger] t[j]) by {
            assert(t[j] == s[j]);
        }
        if p > 0 {
            assert(t[p - 1] == s[p - 1]);
        }
        lemma_insert_point_is(t, x, lt, p);
    }
}

/// Putting an element at its insertion point keeps an ordered sequence
/// ordered.
pub proof fn lemma_insert_keeps_order<T>(s: Seq<T>, x: T, lt: spec_fn(T, T) -> bool)
    requires
        strict_weak_order(lt),
        ordered(s, lt),
    ensures
        ordered(s.insert(insert_point(s, x, lt), x), lt),
{
    lemma_insert_point(s, x, lt);
    let p = insert_point(s, x, lt);
    let r = s.insert(p, x);
    assert forall|i: int, j: int| 0 <= i < j < r.len() implies !lt(
        #[trigger] r[j],
        #[trigger] r[i],
    ) by {
        if j < p {
            assert(r[i] == s[i] && r[j] == s[j]);
        } else if j == p {
            // r[j] is x, r[i] stands before the insertion point
            assert(r[i] == s[i]);
            assert(!lt(x, s[p - 1]));
            if i < p - 1 {
                assert(!lt(s[p - 1], s[i]));
            } else {
                assert(!lt(s[p - 1], s[p - 1]));
            }
            assert(!lt(x, s[i]));
        } else if i < p {
            assert(r[i] == s[i] && r[j] == s[j - 1]);
            if i == j - 1 {
                assert(!lt(s[i], s[i]));
            }
        } else if i == p {
            assert(r[j] == s[j - 1]);
            assert(lt(x, s[j - 1]));
            assert(!lt(x, x));
            if lt(s[j - 1], x) {
                assert(lt(x, x));
            }
        } else {
            assert(r[i] == s[i - 1] && r[j] == s[j - 1]);
        }
    }
}

/// A stable sort has the length and the elements of what was sorted, each
/// as often as before, and is ordered where `lt` is a strict weak order.
pub proof fn lemma_stable_sort<T>(s: Seq<T>, lt: spec_fn(T, T) -> bool)
    ensures
        stable_sort(s, lt).len() == s.len(),
        stable_sort(s, lt).to_multiset() == s.to_multiset(),
        strict_weak_order(lt) ==> ordered(stable_sort(s, lt), lt),
    decreases s.len(),
{
    if s.len() > 0 {
        let front = s.drop_last();
        let placed = stable_sort(front, lt);
        lemma_stable_sort(front, lt);
        lemma_insert_point(placed, s.last(), lt);
        let p = insert_point(placed, s.last(), lt);
        vstd::seq_lib::to_multiset_insert(placed, p, s.last());
        vstd::seq_lib::to_multiset_build(front, s.last());
        assert(front.push(s.last()) =~= s);
        if strict_weak_order(lt) {
            lemma_insert_keeps_order(placed, s.last(), lt);
        }
    }
}

/// Sorting what is already ordered changes nothing.
pub proof fn lemma_stable_sort_of_ordered<T>(s: Seq<T>, lt: spec_fn(T, T) -> bool)
    requires
        ordered(s, lt),
    ensures
        stable_sort(s, lt) == s,
    decreases s.len(),
{
    if s.len() > 0 {
        let front = s.drop_last();
        assert forall|i: int, j: int| 0 <= i < j < front.len() implies !lt(
            #[trigger] front[j],
            #[trigger] front[i],
        ) by {
            assert(front[i] == s[i] && front[j] == s[j]);
        }
        lemma_stable_sort_of_ordered(front, lt);
        if front.len() > 0 {
            assert(front.last() == s[s.len() - 2]);
            assert(!lt(s[s.len() - 1], s[s.len() - 2]));
        }
        assert(insert_point(front, s.last(), lt) == front.len());
        assert(front.insert(front.len() as int, s.last()) =~= s);
    }
}

/// An element is in the stable sort exactly if it was in what was sorted.
pub proof fn lemma_stable_sort_contains<T>(s: Seq<T>, lt: spec_fn(T, T) -> bool, x: T)
    ensures
        stable_sort(s, lt).contains(x) == s.contains(x),
{
    lemma_stable_sort(s, lt);
    vstd::seq_lib::to_multiset_contains(s, x);
    vstd::seq_lib::to_multiset_contains(stable_sort(s, lt), x);
}

/// A way to compare values of `T` that is computed on the values and means
/// a relation on their models.
pub trait Ranking<T: DeepView> {
    /// Whether `a` comes strictly before `b`.
    spec fn lt(a: T::V, b: T::V) -> bool;

    /// Computes `lt` for two values.
    fn less(a: &T, b: &T) -> (r: bool)
        ensures
            r == Self::lt(a.deep_view(), b.deep_view()),
    ;
}

/// The relation of a ranking, as a value.
pub open spec fn ranking<T: DeepView, R: Ranking<T>>() -> spec_fn(T::V, T::V) -> bool {
    |a: T::V, b: T::V| R::lt(a, b)
}

/// The elements of `v` in reverse.
pub fn reversed<T>(v: Vec<T>) -> (r: Vec<T>)
    ensures
        r@ == v@.reverse(),
{
    let ghost whole = v@;
    let mut rest = v;
    let mut out: Vec<T> = Vec::new();
    while rest.len() > 0
        invariant
            rest@.len() + out@.len() == whole.len(),
            forall|i: int| 0 <= i < rest@.len() ==> rest@[i] == whole[i],
            forall|i: int| 0 <= i < out@.len() ==> out@[i] == whole[whole.len() - 1 - i],
        decreases rest@.len(),
    {
        let x = rest.pop().unwrap();
        out.push(x);
    }
    assert(out@ =~= whole.reverse());
    out
}

/// Sorts `v` by the ranking `R`, stably.
pub fn sort_by<T: DeepView, R: Ranking<T>>(v: Vec<T>) -> (r: Vec<T>)
    ensures
        r.deep_view() == stable_sort(v.deep_view(), ranking::<T, R>()),
        r@.to_multiset() == v@.to_multiset(),
{
    let ghost whole = v@;
    let ghost models = v.deep_view();
    let ghost lt = ranking::<T, R>();
    let mut rest = reversed(v);
    let mut out: Vec<T> = Vec::new();
    assert(out.deep_view() =~= stable_sort(models.subrange(0, 0), lt));
    assert(whole.subrange(0, 0) =~= out@);
    while rest.len() > 0
        invariant
            lt == ranking::<T, R>(),
            models.len() == whole.len(),
            forall|i: int| 0 <= i < whole.len() ==> models[i] == #[trigger] whole[i].deep_view(),
            rest@.len() + out@.len() == whole.len(),
            forall|i: int| 0 <= i < rest@.len() ==> rest@[i] == whole[whole.len() - 1 - i],
            out.deep_view() == stable_sort(models.subrange(0, out@.len() as int), lt),
            out@.to_multiset() == whole.subrange(0, out@.len() as int).to_multiset(),
        decreases rest@.len(),
    {
        let ghost k = out@.len() as int;
        let ghost placed = out.deep_view();
        let ghost before = out@;
        let x = rest.pop().unwrap();
        assert(x == whole[k]);
        let mut p: usize = out.len();
        while p > 0 && R::less(&x, &out[p - 1])
            invariant
                lt == ranking::<T, R>(),
                p <= out@.len(),
                out.deep_view() == placed,
                forall|j: int| p <= j < placed.len() ==> lt(x.deep_view(), #[trigger] placed[j]),
            decreases p,
        {
            p -= 1;
        }
        proof {
            if p > 0 {
                assert(placed[p - 1] == out@[p - 1].deep_view());
            }
            lemma_insert_point_is(placed, x.deep_view(), lt, p as int);
            let next = models.subrange(0, k + 1);
            assert(next.drop_last() =~= models.subrange(0, k));
            assert(next.last() == x.deep_view());
            vstd::seq_lib::to_multiset_insert(before, p as int, x);
            vstd::seq_lib::to_multiset_build(whole.subrange(0, k), x);
            assert(whole.subrange(0, k).push(x) =~= whole.subrange(0, k + 1));
        }
        out.insert(p, x);
        assert(out.deep_view() =~= placed.insert(p as int, x.deep_view()));
    }
    assert(models.subrange(0, out@.len() as int) =~= models);
    assert(whole.subrange(0, out@.len() as int) =~= whole);
    out
}

/// `s` without each element that is the same, by `same`, as the last
/// element kept before it: of every run of such elements the first stays.
pub open spec fn drop_repeats<T>(s: Seq<T>, same: spec_fn(T, T) -> bool) -> Seq<T>
    decreases s.len(),
{
    if s.len() == 0 {
        s
    } else {
        let kept = drop_repeats(s.drop_last(), same);
        if kept.len() > 0 && same(kept.last(), s.last()) {
            kept
        } else {
            kept.push(s.last())
        }
    }
}

/// Whether no element of `s` is the same, by `same`, as the one before it.
pub open spec fn no_repeats<T>(s: Seq<T>, same: spec_fn(T, T) -> bool) -> bool {
    forall|i: int| 0 <= i < s.len() - 1 ==> !same(#[trigger] s[i], s[i + 1])
}

/// What is left of `s` after dropping repeats holds only elements of `s`,
/// none that repeats the one before it, as many as `s` at most and at
/// least one if `s` has one; and it is ordered if `s` is.
pub proof fn lemma_drop_repeats<T>(s: Seq<T>, same: spec_fn(T, T) -> bool, lt: spec_fn(T, T) -> bool)
    ensures
        drop_repeats(s, same).len() <= s.len(),
        s.len() > 0 ==> drop_repeats(s, same).len() > 0,
        forall|x: T| #[trigger] drop_repeats(s, same).contains(x) ==> s.contains(x),
        no_repeats(drop_repeats(s, same), same),
        ordered(s, lt) ==> ordered(drop_repeats(s, same), lt),
    decreases s.len(),
{
    if s.len() > 0 {
        let front = s.drop_last();
        let kept = drop_repeats(front, same);
        let d = drop_repeats(s, same);
        lemma_drop_repeats(front, same, lt);
        assert forall|x: T| #[trigger] d.contains(x) implies s.contains(x) by {
            let i = choose|i: int| 0 <= i < d.len() && d[i] == x;
            if i < kept.len() {
                assert(kept[i] == x);
                assert(kept.contains(x));
                assert(front.contains(x));
                let k = choose|k: int| 0 <= k < front.len() && front[k] == x;
                assert(s[k] == x);
            } else {
                assert(s[s.len() - 1] == x);
            }
        }
        if ordered(s, lt) {
            assert forall|i: int, j: int| 0 <= i < j < front.len() implies !lt(
                #[trigger] front[j],
                #[trigger] front[i],
            ) by {
                assert(front[i] == s[i] && front[j] == s[j]);
            }
            assert forall|i: int, j: int| 0 <= i < j < d.len() implies !lt(
                #[trigger] d[j],
                #[trigger] d[i],
            ) by {
                if j < kept.len() {
                    assert(d[i] == kept[i] && d[j] == kept[j]);
                } else {
                    assert(d[j] == s[s.len() - 1]);
                    assert(d[i] == kept[i]);
                    assert(kept.contains(kept[i]));
                    assert(front.contains(kept[i]));
                    let k = choose|k: int| 0 <= k < front.len() && front[k] == kept[i];
                    assert(s[k] == kept[i]);
                }
            }
        }
        assert forall|i: int| 0 <= i < d.len() - 1 implies !same(#[trigger] d[i], d[i + 1]) by {
            if i + 1 < kept.len() {
                assert(d[i] == kept[i] && d[i + 1] == kept[i + 1]);
            }
        }
    }
}

/// Dropping repeats from what has none changes nothing.
pub proof fn lemma_drop_repeats_of_none<T>(s: Seq<T>, same: spec_fn(T, T) -> bool)
    requires
        no_repeats(s, same),
    ensures
        drop_repeats(s, same) == s,
    decreases s.len(),
{
    if s.len() > 0 {
        let front = s.drop_last();
        assert forall|i: int| 0 <= i < front.len() - 1 implies !same(
            #[trigger] front[i],
            front[i + 1],
        ) by {
            assert(front[i] == s[i] && front[i + 1] == s[i + 1]);
        }
        lemma_drop_repeats_of_none(front, same);
        if front.len() > 0 {
            assert(front.last() == s[s.len() - 2]);
            assert(!same(s[s.len() - 2], s[s.len() - 2 + 1]));
        }
        assert(front.push(s.last()) =~= s);
    }
}

/// A way to tell that two values of `T` count as the same, computed on
/// the values and meaning a relation on their models.
pub trait Likeness<T: DeepView> {
    /// Whether `a` and `b` count as the same.
    spec fn same(a: T::V, b: T::V) -> bool;

    /// Computes `same` for two values.
    fn alike(a: &T, b: &T) -> (r: bool)
        ensures
            r == Self::same(a.deep_view(), b.deep_view()),
    ;
}

/// The relation of a likeness, as a value.
pub open spec fn likeness<T: DeepView, L: Likeness<T>>() -> spec_fn(T::V, T::V) -> bool {
    |a: T::V, b: T::V| L::same(a, b)
}

/// Drops from `v` each element that is the same, by `L`, as the last one
/// kept before it.
pub fn dedup_by<T: DeepView, L: Likeness<T>>(v: Vec<T>) -> (r: Vec<T>)
    ensures
        r.deep_view() == drop_repeats(v.deep_view(), likeness::<T, L>()),
{
    let ghost models = v.deep_view();
    let ghost n = models.len();
    let ghost same = likeness::<T, L>();
    let mut rest = reversed(v);
    let mut out: Vec<T> = Vec::new();
    assert(out.deep_view() =~= drop_repeats(models.subrange(0, 0), same));
    while rest.len() > 0
        invariant
            same == likeness::<T, L>(),
            n == models.len(),
            rest@.len() <= n,
            forall|i: int|
                0 <= i < rest@.len() ==> (#[trigger] rest@[i]).deep_view() == models[n - 1 - i],
            out.deep_view() == drop_repeats(models.subrange(0, n - rest@.len()), same),
        decreases rest@.len(),
    {
        let ghost k = n - rest@.len();
        let ghost kept = out.deep_view();
        let x = rest.pop().unwrap();
        proof {
            let next = models.subrange(0, k + 1);
            assert(next.drop_last() =~= models.subrange(0, k));
            assert(next.last() == x.deep_view());
            if kept.len() > 0 {
                assert(kept.last() == out@[out@.len() - 1].deep_view());
            }
        }
        let m = out.len();
        if m > 0 && L::alike(&out[m - 1], &x) {
        } else {
            out.push(x);
            assert(out.deep_view() =~= kept.push(x.deep_view()));
        }
    }
    assert(models.subrange(0, n as int) =~= models);
    out
}

/// Whether `x` stands at the place `k` of `t` behind no element that is
/// the same as it.
pub open spec fn stands_first<T>(t: Seq<T>, x: T, same: spec_fn(T, T) -> bool, k: int) -> bool {
    &&& 0 <= k < t.len()
    &&& t[k] == x
    &&& forall|j: int| 0 <= j < k ==> !same(#[trigger] t[j], x)
}

/// Dropping repeats keeps every element that is the same as none before
/// it.
pub proof fn lemma_drop_repeats_keeps<T>(s: Seq<T>, same: spec_fn(T, T) -> bool, k: int)
    requires
        stands_first(s, s[k], same, k),
    ensures
        drop_repeats(s, same).contains(s[k]),
    decreases s.len(),
{
    let front = s.drop_last();
    let kept = drop_repeats(front, same);
    let d = drop_repeats(s, same);
    if k < s.len() - 1 {
        assert(front[k] == s[k]);
        assert forall|j: int| 0 <= j < k implies !same(#[trigger] front[j], front[k]) by {
            assert(front[j] == s[j]);
        }
        lemma_drop_repeats_keeps(front, same, k);
        let i = choose|i: int| 0 <= i < kept.len() && kept[i] == front[k];
        assert(d[i] == s[k]);
    } else if kept.len() > 0 && same(kept.last(), s.last()) {
        lemma_drop_repeats(front, same, same);
        assert(kept.contains(kept[kept.len() - 1]));
        assert(front.contains(kept.last()));
        let j = choose|j: int| 0 <= j < front.len() && front[j] == kept.last();
        assert(s[j] == kept.last());
        assert(!same(s[j], s[k]));
    } else {
        assert(d[d.len() - 1] == s[k]);
    }
}

/// In a stable sort, an element that is the same as none before it in
/// what was sorted stands behind none that is the same as it, where
/// elements of which one comes strictly before the other are never the
/// same.
pub proof fn lemma_stable_sort_keeps_first<T>(
    s: Seq<T>,
    lt: spec_fn(T, T) -> bool,
    same: spec_fn(T, T) -> bool,
    i: int,
)
    requires
        stands_first(s, s[i], same, i),
        forall|a: T, b: T| #[trigger] lt(a, b) ==> !same(a, b),
    ensures
        exists|k: int| stands_first(stable_sort(s, lt), s[i], same, k),
    decreases s.len(),
{
    let front = s.drop_last();
    let x = s.last();
    let placed = stable_sort(front, lt);
    let r = stable_sort(s, lt);
    lemma_stable_sort(front, lt);
    lemma_insert_point(placed, x, lt);
    let p = insert_point(placed, x, lt);
    if i < s.len() - 1 {
        assert(front[i] == s[i]);
        assert forall|j: int| 0 <= j < i implies !same(#[trigger] front[j], front[i]) by {
            assert(front[j] == s[j]);
        }
        lemma_stable_sort_keeps_first(front, lt, same, i);
        let k0 = choose|k: int| stands_first(placed, s[i], same, k);
        if k0 < p {
            assert forall|j: int| 0 <= j < k0 implies !same(#[trigger] r[j], s[i]) by {
                assert(r[j] == placed[j]);
            }
            assert(stands_first(r, s[i], same, k0));
        } else {
            assert(lt(x, placed[k0]));
            assert forall|j: int| 0 <= j < k0 + 1 implies !same(#[trigger] r[j], s[i]) by {
                if j < p {
                    assert(r[j] == placed[j]);
                } else if j > p {
                    assert(r[j] == placed[j - 1]);
                }
            }
            assert(stands_first(r, s[i], same, k0 + 1));
        }
    } else {
        assert forall|j: int| 0 <= j < p implies !same(#[trigger] r[j], s[i]) by {
            assert(r[j] == placed[j]);
            assert(placed.contains(placed[j]));
            lemma_stable_sort_contains(front, lt, placed[j]);
            let m = choose|m: int| 0 <= m < front.len() && front[m] == placed[j];
            assert(s[m] == placed[j]);
        }
        assert(stands_first(r, s[i], same, p));
    }
}

} // verus!
