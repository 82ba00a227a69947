use vstd::prelude::*;

verus! {

/// Setting one element of a vector changes its deep view at that position
/// only.
pub proof fn lemma_set_deep_view<T: DeepView>(pre: Seq<T>, post: Seq<T>, j: int, c: T)
    requires
        0 <= j < pre.len(),
        post == pre.update(j, c),
    ensures
        Seq::new(post.len(), |i: int| post[i].deep_view()) == Seq::new(
            pre.len(),
            |i: int| pre[i].deep_view(),
        ).update(j, c.deep_view()),
{
    assert(Seq::new(post.len(), |i: int| post[i].deep_view()) =~= Seq::new(
        pre.len(),
        |i: int| pre[i].deep_view(),
    ).update(j, c.deep_view()));
}

/// Pushing onto a vector pushes the deep view of the element onto its deep
/// view.
pub proof fn lemma_push_deep_view<T: DeepView>(pre: Seq<T>, post: Seq<T>, c: T)
    requires
        post == pre.push(c),
    ensures
        Seq::new(post.len(), |i: int| post[i].deep_view()) == Seq::new(
            pre.len(),
            |i: int| pre[i].deep_view(),
        ).push(c.deep_view()),
{
    assert(Seq::new(post.len(), |i: int| post[i].deep_view()) =~= Seq::new(
        pre.len(),
        |i: int| pre[i].deep_view(),
    ).push(c.deep_view()));
}

/// The elements of `s` whose positions are not in `ps`, in their order.
pub open spec fn without_positions<T>(s: Seq<T>, ps: Set<int>) -> Seq<T>
    decreases s.len(),
{
    if s.len() == 0 {
        s
    } else if ps.contains(s.len() - 1) {
        without_positions(s.drop_last(), ps)
    } else {
        without_positions(s.drop_last(), ps).push(s.last())
    }
}

/// The positions listed in `v`.
pub open spec fn listed(v: Seq<usize>) -> Set<int> {
    Set::new(|p: int| exists|i: int| 0 <= i < v.len() && v[i] as int == p)
}

/// Whether `v` lists its positions in strictly increasing order.
pub open spec fn strictly_increasing(v: Seq<usize>) -> bool {
    forall|a: int, b: int| 0 <= a < b < v.len() ==> v[a] < v[b]
}

/// The deep view of each element of `s`.
pub open spec fn deep_seq<T: DeepView>(s: Seq<T>) -> Seq<T::V> {
    Seq::new(s.len(), |i: int| s[i].deep_view())
}

/// Only the positions that `s` has matter to [`without_positions`].
pub proof fn lemma_without_positions_agree<T>(s: Seq<T>, a: Set<int>, b: Set<int>)
    requires
        forall|q: int| 0 <= q < s.len() ==> (a.contains(q) <==> b.contains(q)),
    ensures
        without_positions(s, a) == without_positions(s, b),
    decreases s.len(),
{
    if s.len() > 0 {
        lemma_without_positions_agree(s.drop_last(), a, b);
    }
}

/// Removing no position of `s` leaves it as it is.
pub proof fn lemma_without_no_position<T>(s: Seq<T>, ps: Set<int>)
    requires
        forall|q: int| 0 <= q < s.len() ==> !ps.contains(q),
    ensures
        without_positions(s, ps) == s,
    decreases s.len(),
{
    if s.len() > 0 {
        lemma_without_no_position(s.drop_last(), ps);
        assert(s.drop_last().push(s.last()) =~= s);
    }
}

/// Removing positions after `p` keeps the elements up to `p` where they
/// are.
pub proof fn lemma_without_keeps_prefix<T>(s: Seq<T>, ps: Set<int>, p: int)
    requires
        0 <= p < s.len(),
        forall|q: int| ps.contains(q) ==> q > p,
    ensures
        without_positions(s, ps).len() > p,
        without_positions(s, ps).take(p + 1) == s.take(p + 1),
    decreases s.len(),
{
    if s.len() - 1 == p {
        lemma_without_no_position(s.drop_last(), ps);
        assert(s.drop_last().push(s.last()) =~= s);
        assert(s.take(p + 1) =~= s);
    } else {
        lemma_without_keeps_prefix(s.drop_last(), ps, p);
        let w = without_positions(s.drop_last(), ps);
        assert(s.drop_last().take(p + 1) =~= s.take(p + 1));
        if !ps.contains(s.len() - 1) {
            assert(w.push(s.last()).take(p + 1) =~= w.take(p + 1));
        }
    }
}

/// Removing position `p` from what is left after removing positions above
/// it is removing `p` with them.
pub proof fn lemma_without_insert<T>(s: Seq<T>, ps: Set<int>, p: int)
    requires
        0 <= p < s.len(),
        forall|q: int| ps.contains(q) ==> q > p,
    ensures
        without_positions(s, ps).len() > p,
        without_positions(s, ps.insert(p)) == without_positions(s, ps).remove(p),
    decreases s.len(),
{
    lemma_without_keeps_prefix(s, ps, p);
    let l = s.len() - 1;
    if l == p {
        lemma_without_no_position(s.drop_last(), ps);
        lemma_without_no_position(s.drop_last(), ps.insert(p));
        assert(s.drop_last().push(s.last()) =~= s);
        assert(s.remove(p) =~= s.drop_last());
    } else {
        lemma_without_insert(s.drop_last(), ps, p);
        let w = without_positions(s.drop_last(), ps);
        if !ps.contains(l) {
            assert(w.remove(p).push(s.last()) =~= w.push(s.last()).remove(p));
        }
    }
}

/// Removing positions commutes with taking deep views.
pub proof fn lemma_without_deep<T: DeepView>(s: Seq<T>, ps: Set<int>)
    ensures
        without_positions(deep_seq(s), ps) == deep_seq(without_positions(s, ps)),
    decreases s.len(),
{
    if s.len() > 0 {
        lemma_without_deep(s.drop_last(), ps);
        assert(deep_seq(s).drop_last() =~= deep_seq(s.drop_last()));
        let w = without_positions(s.drop_last(), ps);
        assert(deep_seq(w.push(s.last())) =~= deep_seq(w).push(s.last().deep_view()));
    }
}

/// Listing one more position adds it to the listed set.
pub proof fn lemma_listed_push(v: Seq<usize>, x: usize)
    ensures
        listed(v.push(x)) == listed(v).insert(x as int),
{
    let w = v.push(x);
    assert forall|p: int| listed(w).contains(p) implies listed(v).insert(x as int).contains(p) by {
        let i = choose|i: int| 0 <= i < w.len() && w[i] as int == p;
        if i < v.len() {
            assert(v[i] as int == p);
        }
    }
    assert forall|p: int| listed(v).insert(x as int).contains(p) implies listed(w).contains(p) by {
        if p == x as int {
            assert(w[v.len() as int] as int == p);
        } else {
            let i = choose|i: int| 0 <= i < v.len() && v[i] as int == p;
            assert(w[i] as int == p);
        }
    }
    assert(listed(w) =~= listed(v).insert(x as int));
}

/// Inserting a position anywhere in a list adds it to the listed set.
pub proof fn lemma_listed_insert(v: Seq<usize>, j: int, x: usize)
    requires
        0 <= j <= v.len(),
    ensures
        listed(v.insert(j, x)) == listed(v).insert(x as int),
{
    let w = v.insert(j, x);
    assert forall|p: int| listed(w).contains(p) implies listed(v).insert(x as int).contains(p) by {
        let i = choose|i: int| 0 <= i < w.len() && w[i] as int == p;
        if i < j {
            assert(v[i] as int == p);
        } else if i > j {
            assert(v[i - 1] as int == p);
        }
    }
    assert forall|p: int| listed(v).insert(x as int).contains(p) implies listed(w).contains(p) by {
        if p == x as int {
            assert(w[j] as int == p);
        } else {
            let i = choose|i: int| 0 <= i < v.len() && v[i] as int == p;
            if i < j {
                assert(w[i] as int == p);
            } else {
                assert(w[i + 1] as int == p);
            }
        }
    }
    assert(listed(w) =~= listed(v).insert(x as int));
}

/// A list's first position and the rest make up the listed set.
pub proof fn lemma_listed_skip(v: Seq<usize>, k: int)
    requires
        0 < k <= v.len(),
    ensures
        listed(v.skip(k - 1)) == listed(v.skip(k)).insert(v[k - 1] as int),
{
    assert(v.skip(k - 1) =~= v.skip(k).insert(0, v[k - 1]));
    lemma_listed_insert(v.skip(k), 0, v[k - 1]);
}

} // verus!
