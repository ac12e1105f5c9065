//! Stable sorting by a strict "comes before" relation, stated as insertion
//! sort: each element goes after every earlier element that it does not come
//! before.

use vstd::prelude::*;

verus! {

/// Where `x` goes in `s`: after the last element that `x` does not come before.
pub open spec fn insert_pos<T>(s: Seq<T>, x: T, lt: spec_fn(T, T) -> bool) -> nat
    decreases s.len(),
{
    if s.len() == 0 {
        0
    } else if lt(x, s.last()) {
        insert_pos(s.drop_last(), x, lt)
    } else {
        s.len()
    }
}

/// `s` with `x` inserted at its place.
pub open spec fn insert_sorted<T>(s: Seq<T>, x: T, lt: spec_fn(T, T) -> bool) -> Seq<T> {
    s.insert(insert_pos(s, x, lt) as int, x)
}

/// `s` sorted stably by `lt`.
pub open spec fn insertion_sort<T>(s: Seq<T>, lt: spec_fn(T, T) -> bool) -> Seq<T>
    decreases s.len(),
{
    if s.len() == 0 {
        Seq::empty()
    } else {
        insert_sorted(insertion_sort(s.drop_last(), lt), s.last(), lt)
    }
}

pub proof fn lemma_insert_pos_bound<T>(s: Seq<T>, x: T, lt: spec_fn(T, T) -> bool)
    ensures
        insert_pos(s, x, lt) <= s.len(),
    decreases s.len(),
{
    if s.len() > 0 && lt(x, s.last()) {
        lemma_insert_pos_bound(s.drop_last(), x, lt);
    }
}

pub proof fn lemma_insertion_sort_len<T>(s: Seq<T>, lt: spec_fn(T, T) -> bool)
    ensures
        insertion_sort(s, lt).len() == s.len(),
    decreases s.len(),
{
    if s.len() > 0 {
        lemma_insertion_sort_len(s.drop_last(), lt);
        lemma_insert_pos_bound(insertion_sort(s.drop_last(), lt), s.last(), lt);
    }
}

/// Scanning `s` from the back while `x` comes before the element there
/// finds the insertion place: the step that the scan takes.
pub proof fn lemma_insert_pos_scan<T>(s: Seq<T>, x: T, lt: spec_fn(T, T) -> bool, j: int)
    requires
        0 < j <= s.len(),
    ensures
        lt(x, s[j - 1]) ==> insert_pos(s.take(j), x, lt) == insert_pos(s.take(j - 1), x, lt),
        !lt(x, s[j - 1]) ==> insert_pos(s.take(j), x, lt) == j,
{
    assert(s.take(j).drop_last() =~= s.take(j - 1));
    assert(s.take(j).last() == s[j - 1]);
}

/// No element of `s` comes before an earlier one.
pub open spec fn sorted_by_before<T>(s: Seq<T>, lt: spec_fn(T, T) -> bool) -> bool {
    forall|i: int, j: int| 0 <= i < j < s.len() ==> !lt(#[trigger] s[j], #[trigger] s[i])
}

/// `lt` never holds both ways.
pub open spec fn asymmetric<T>(lt: spec_fn(T, T) -> bool) -> bool {
    forall|a: T, b: T| #[trigger] lt(a, b) ==> !lt(b, a)
}

/// Where `a` does not come before `b` nor `b` before `c`, `a` does not come
/// before `c`.
pub open spec fn negatively_transitive<T>(lt: spec_fn(T, T) -> bool) -> bool {
    forall|a: T, b: T, c: T|
        #![trigger lt(a, b), lt(b, c)]
        !lt(a, b) && !lt(b, c) ==> !lt(a, c)
}

/// `x` comes before every element after its place, and not before the one
/// just before it.
pub proof fn lemma_insert_pos_facts<T>(s: Seq<T>, x: T, lt: spec_fn(T, T) -> bool)
    ensures
        forall|i: int| insert_pos(s, x, lt) <= i < s.len() ==> lt(x, #[trigger] s[i]),
        insert_pos(s, x, lt) > 0 ==> !lt(x, s[insert_pos(s, x, lt) - 1]),
    decreases s.len(),
{
    lemma_insert_pos_bound(s, x, lt);
    if s.len() > 0 && lt(x, s.last()) {
        let t = s.drop_last();
        lemma_insert_pos_facts(t, x, lt);
        lemma_insert_pos_bound(t, x, lt);
        assert forall|i: int| insert_pos(s, x, lt) <= i < s.len() implies lt(x, #[trigger] s[i]) by {
            if i < s.len() - 1 {
                assert(s[i] == t[i]);
            }
        }
        if insert_pos(s, x, lt) > 0 {
            assert(s[insert_pos(s, x, lt) - 1] == t[insert_pos(t, x, lt) - 1]);
        }
    }
}

/// Inserting at its place keeps a sorted sequence sorted.
pub proof fn lemma_insert_sorted_sorted<T>(s: Seq<T>, x: T, lt: spec_fn(T, T) -> bool)
    requires
        sorted_by_before(s, lt),
        asymmetric(lt),
        negatively_transitive(lt),
    ensures
        sorted_by_before(insert_sorted(s, x, lt), lt),
{
    let p = insert_pos(s, x, lt) as int;
    lemma_insert_pos_bound(s, x, lt);
    lemma_insert_pos_facts(s, x, lt);
    let r = insert_sorted(s, x, lt);
    s.insert_ensures(p, x);
    assert forall|i: int, j: int| 0 <= i < j < r.len() implies !lt(#[trigger] r[j], #[trigger] r[i]) by {
        if j < p {
            assert(r[i] == s[i] && r[j] == s[j]);
        } else if j == p {
            assert(r[j] == x && r[i] == s[i]);
            if i < p - 1 {
                assert(!lt(x, s[p - 1]));
                assert(!lt(s[p - 1], s[i]));
                assert(!lt(x, s[i]));
            }
        } else if i < p {
            assert(r[i] == s[i] && r[j] == s[j - 1]);
        } else if i == p {
            assert(r[i] == x && r[j] == s[j - 1]);
            assert(lt(x, s[j - 1]));
        } else {
            assert(r[i] == s[i - 1] && r[j] == s[j - 1]);
        }
    }
}

/// Insertion sort sorts.
pub proof fn lemma_insertion_sort_sorted<T>(s: Seq<T>, lt: spec_fn(T, T) -> bool)
    requires
        asymmetric(lt),
        negatively_transitive(lt),
    ensures
        sorted_by_before(insertion_sort(s, lt), lt),
    decreases s.len(),
{
    if s.len() > 0 {
        lemma_insertion_sort_sorted(s.drop_last(), lt);
        lemma_insert_sorted_sorted(insertion_sort(s.drop_last(), lt), s.last(), lt);
    }
}

/// Insertion sort keeps each element as often as it stands in the input.
pub proof fn lemma_insertion_sort_multiset<T>(s: Seq<T>, lt: spec_fn(T, T) -> bool)
    ensures
        insertion_sort(s, lt).to_multiset() == s.to_multiset(),
    decreases s.len(),
{
    broadcast use vstd::seq_lib::group_to_multiset_ensures;
    if s.len() > 0 {
        lemma_insertion_sort_multiset(s.drop_last(), lt);
        let t = insertion_sort(s.drop_last(), lt);
        lemma_insert_pos_bound(t, s.last(), lt);
        assert(s =~= s.drop_last().push(s.last()));
        assert(insert_sorted(t, s.last(), lt).to_multiset() == t.to_multiset().insert(s.last()));
    } else {
        assert(s.to_multiset() =~= vstd::multiset::Multiset::<T>::empty()) by {
            assert(s.to_multiset().len() == 0);
        }
        assert(insertion_sort(s, lt).to_multiset() =~= vstd::multiset::Multiset::<T>::empty()) by {
            assert(insertion_sort(s, lt).to_multiset().len() == 0);
        }
    }
}

/// An element stands in the sorted sequence exactly where it stands in the
/// input.
pub proof fn lemma_insertion_sort_contains<T>(s: Seq<T>, lt: spec_fn(T, T) -> bool, x: T)
    ensures
        insertion_sort(s, lt).contains(x) == s.contains(x),
{
    broadcast use vstd::seq_lib::group_to_multiset_ensures;
    lemma_insertion_sort_multiset(s, lt);
    assert(insertion_sort(s, lt).contains(x) == (insertion_sort(s, lt).to_multiset().count(x) > 0));
    assert(s.contains(x) == (s.to_multiset().count(x) > 0));
}


/// The elements that neither come before `x` nor after it.
pub open spec fn tied_with<T>(lt: spec_fn(T, T) -> bool, x: T) -> spec_fn(T) -> bool {
    |y: T| !lt(x, y) && !lt(y, x)
}

/// Under a strict weak order, elements tied with each other are tied with
/// the same elements.
pub proof fn lemma_tied_with_same<T>(lt: spec_fn(T, T) -> bool, a: T, b: T)
    requires
        negatively_transitive(lt),
        !lt(a, b),
        !lt(b, a),
    ensures
        tied_with(lt, a) == tied_with(lt, b),
{
    assert forall|y: T| #[trigger] tied_with(lt, a)(y) == tied_with(lt, b)(y) by {
        if !lt(a, y) && !lt(y, a) {
            assert(!lt(b, a) && !lt(a, y) ==> !lt(b, y));
            assert(!lt(y, a) && !lt(a, b) ==> !lt(y, b));
        }
        if !lt(b, y) && !lt(y, b) {
            assert(!lt(a, b) && !lt(b, y) ==> !lt(a, y));
            assert(!lt(y, b) && !lt(b, a) ==> !lt(y, a));
        }
    }
    assert(tied_with(lt, a) =~= tied_with(lt, b));
}

/// Sorting keeps the order among tied elements: the elements tied with `x`
/// come out in the order in which they came in.
pub proof fn lemma_insertion_sort_stable<T>(s: Seq<T>, lt: spec_fn(T, T) -> bool, x: T)
    requires
        asymmetric(lt),
        negatively_transitive(lt),
    ensures
        insertion_sort(s, lt).filter(tied_with(lt, x)) == s.filter(tied_with(lt, x)),
    decreases s.len(),
{
    broadcast use vstd::seq_lib::group_filter_ensures;
    let p = tied_with(lt, x);
    if s.len() == 0 {
        assert(insertion_sort(s, lt) =~= s);
    } else {
        let d = s.drop_last();
        let y = s.last();
        lemma_insertion_sort_stable(d, lt, x);
        let t = insertion_sort(d, lt);
        let q = insert_pos(t, y, lt) as int;
        lemma_insert_pos_bound(t, y, lt);
        lemma_insert_pos_facts(t, y, lt);
        let a = t.take(q);
        let b = t.skip(q);
        assert(t =~= a + b);
        assert(insert_sorted(t, y, lt) =~= a + seq![y] + b);
        vstd::seq::Seq::filter_distributes_over_add(a, b, p);
        vstd::seq::Seq::filter_distributes_over_add(a + seq![y], b, p);
        vstd::seq::Seq::filter_distributes_over_add(a, seq![y], p);
        assert(s =~= d.push(y));
        d.lemma_filter_push(y, p);
        assert(seq![y] =~= Seq::<T>::empty().push(y));
        Seq::<T>::empty().lemma_filter_push(y, p);
        assert(Seq::<T>::empty().filter(p) =~= Seq::<T>::empty()) by {
            reveal(Seq::filter);
        }
        if p(y) {
            let f = b.filter(p);
            if f.len() > 0 {
                b.lemma_filter_pred(p, 0);
                b.lemma_filter_contains_rev(p, f[0]);
                let j = choose|j: int| 0 <= j < b.len() && b[j] == f[0];
                assert(b[j] == t[q + j]);
                assert(lt(y, t[q + j]));
                assert(!lt(y, x) && !lt(x, f[0]) ==> !lt(y, f[0]));
            }
            assert(f =~= Seq::<T>::empty());
            assert(insertion_sort(s, lt).filter(p) =~= s.filter(p));
        } else {
            assert(insertion_sort(s, lt).filter(p) =~= s.filter(p));
        }
    }
}

/// Two sorted sequences in which the elements tied with any given element
/// stand in the same order are equal.
pub proof fn lemma_sorted_unique<T>(s: Seq<T>, t: Seq<T>, lt: spec_fn(T, T) -> bool)
    requires
        asymmetric(lt),
        negatively_transitive(lt),
        sorted_by_before(s, lt),
        sorted_by_before(t, lt),
        forall|x: T| #[trigger] s.filter(tied_with(lt, x)) == t.filter(tied_with(lt, x)),
    ensures
        s == t,
    decreases s.len(),
{
    broadcast use vstd::seq_lib::group_filter_ensures;
    if s.len() == 0 || t.len() == 0 {
        let u = if s.len() == 0 { t } else { s };
        let v = if s.len() == 0 { s } else { t };
        if u.len() > 0 {
            let p = tied_with(lt, u[0]);
            assert(!lt(u[0], u[0]));
            u.lemma_filter_contains(p, 0);
            assert(v.filter(p) =~= Seq::<T>::empty()) by {
                reveal(Seq::filter);
            }
            assert(s.filter(p) == t.filter(p));
            assert(false);
        }
        assert(s =~= t);
    } else {
        let a = s[0];
        let b = t[0];
        let s1 = s.drop_first();
        let t1 = t.drop_first();
        assert(s =~= seq![a] + s1);
        assert(t =~= seq![b] + t1);
        assert(!lt(a, a) && !lt(b, b));
        let pa = tied_with(lt, a);
        let pb = tied_with(lt, b);
        s1.lemma_filter_prepend(a, pa);
        t1.lemma_filter_prepend(b, pb);
        t1.lemma_filter_prepend(b, pa);
        s1.lemma_filter_prepend(a, pb);
        assert(s.filter(pa) == t.filter(pa));
        assert(s.filter(pb) == t.filter(pb));
        // `a` stands in `t`, so `a` does not come before `b`; and the other
        // way round.
        assert(s.filter(pa)[0] == a);
        t.lemma_filter_contains_rev(pa, a);
        let j = choose|j: int| 0 <= j < t.len() && t[j] == a;
        assert(t.filter(pb)[0] == b);
        s.lemma_filter_contains_rev(pb, b);
        let i = choose|i: int| 0 <= i < s.len() && s[i] == b;
        if j > 0 {
            assert(!lt(t[j], t[0]));
        }
        if i > 0 {
            assert(!lt(s[i], s[0]));
        }
        assert(!lt(a, b) && !lt(b, a));
        lemma_tied_with_same(lt, a, b);
        assert(a == b);
        assert forall|x: T| #[trigger] s1.filter(tied_with(lt, x)) == t1.filter(tied_with(lt, x)) by {
            let px = tied_with(lt, x);
            s1.lemma_filter_prepend(a, px);
            t1.lemma_filter_prepend(a, px);
            assert(s.filter(px) == t.filter(px));
            let pre = if px(a) { seq![a] } else { Seq::<T>::empty() };
            assert(s1.filter(px) =~= (pre + s1.filter(px)).skip(pre.len() as int));
            assert(t1.filter(px) =~= (pre + t1.filter(px)).skip(pre.len() as int));
        }
        assert(sorted_by_before(s1, lt)) by {
            assert forall|i: int, j: int| 0 <= i < j < s1.len() implies !lt(#[trigger] s1[j], #[trigger] s1[i]) by {
                assert(s1[j] == s[j + 1] && s1[i] == s[i + 1]);
            }
        }
        assert(sorted_by_before(t1, lt)) by {
            assert forall|i: int, j: int| 0 <= i < j < t1.len() implies !lt(#[trigger] t1[j], #[trigger] t1[i]) by {
                assert(t1[j] == t[j + 1] && t1[i] == t[i + 1]);
            }
        }
        lemma_sorted_unique(s1, t1, lt);
    }
}

} // verus!
