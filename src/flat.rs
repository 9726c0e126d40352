use vstd::prelude::*;
use vstd::seq_lib::{group_to_multiset_ensures, lemma_multiset_commutative};

verus! {

/// The concatenation of `g(i, s[i])` over the positions of `s`, in order.
pub open spec fn flat_map<T, X>(s: Seq<T>, g: spec_fn(int, T) -> Seq<X>) -> Seq<X>
    decreases s.len(),
{
    if s.len() == 0 {
        Seq::empty()
    } else {
        flat_map(s.drop_last(), g) + g(s.len() - 1, s.last())
    }
}

/// The prefix of length `i + 1` adds the piece of position `i`.
pub proof fn lemma_flat_map_take<T, X>(s: Seq<T>, g: spec_fn(int, T) -> Seq<X>, i: int)
    requires
        0 <= i < s.len(),
    ensures
        flat_map(s.take(i + 1), g) == flat_map(s.take(i), g) + g(i, s[i]),
{
    assert(s.take(i + 1).drop_last() =~= s.take(i));
}

/// Pieces that are all empty concatenate to nothing.
pub proof fn lemma_flat_map_empty<T, X>(s: Seq<T>, g: spec_fn(int, T) -> Seq<X>)
    requires
        forall|i: int| 0 <= i < s.len() ==> g(i, #[trigger] s[i]).len() == 0,
    ensures
        flat_map(s, g) == Seq::<X>::empty(),
    decreases s.len(),
{
    if s.len() > 0 {
        lemma_flat_map_empty(s.drop_last(), g);
        assert(g(s.len() - 1, s[s.len() - 1]).len() == 0);
        assert(flat_map(s, g) =~= Seq::<X>::empty());
    }
}

/// Two sequences whose pieces agree position by position concatenate alike.
pub proof fn lemma_flat_map_congruent<T, U, X>(
    s: Seq<T>,
    g: spec_fn(int, T) -> Seq<X>,
    t: Seq<U>,
    h: spec_fn(int, U) -> Seq<X>,
)
    requires
        s.len() == t.len(),
        forall|i: int| 0 <= i < s.len() ==> g(i, #[trigger] s[i]) == h(i, t[i]),
    ensures
        flat_map(s, g) == flat_map(t, h),
    decreases s.len(),
{
    if s.len() > 0 {
        lemma_flat_map_congruent(s.drop_last(), g, t.drop_last(), h);
        assert(g(s.len() - 1, s[s.len() - 1]) == h(s.len() - 1, t[s.len() - 1]));
    }
}

/// Replacing one element by one whose piece holds one more item adds that item.
pub proof fn lemma_flat_map_update<T, X>(s: Seq<T>, g: spec_fn(int, T) -> Seq<X>, k: int, x: T, e: X)
    requires
        0 <= k < s.len(),
        g(k, x).to_multiset() == g(k, s[k]).to_multiset().insert(e),
    ensures
        flat_map(s.update(k, x), g).to_multiset() == flat_map(s, g).to_multiset().insert(e),
    decreases s.len(),
{
    broadcast use vstd::multiset::group_multiset_axioms;
    let n = s.len() - 1;
    let u = s.update(k, x);
    lemma_multiset_commutative(flat_map(u.drop_last(), g), g(n, u.last()));
    lemma_multiset_commutative(flat_map(s.drop_last(), g), g(n, s.last()));
    if k == n {
        assert(u.drop_last() =~= s.drop_last());
        assert(flat_map(u, g).to_multiset() =~= flat_map(s, g).to_multiset().insert(e));
    } else {
        assert(u.drop_last() =~= s.drop_last().update(k, x));
        lemma_flat_map_update(s.drop_last(), g, k, x, e);
        assert(flat_map(u, g).to_multiset() =~= flat_map(s, g).to_multiset().insert(e));
    }
}

/// Inserting into a sequence inserts the image into the multiset of its images.
pub proof fn lemma_insert_map_to_multiset<A, B>(s: Seq<A>, i: int, v: A, f: spec_fn(A) -> B)
    requires
        0 <= i <= s.len(),
    ensures
        s.insert(i, v).map_values(f).to_multiset() == s.map_values(f).to_multiset().insert(f(v)),
{
    broadcast use vstd::multiset::group_multiset_axioms;
    broadcast use group_to_multiset_ensures;
    let m = s.map_values(f);
    let mi = m.insert(i, f(v));
    assert(s.insert(i, v).map_values(f) =~= mi);
    assert(mi.remove(i) =~= m);
    assert(mi[i] == f(v));
    assert(mi.to_multiset().remove(f(v)) == m.to_multiset());
    assert(mi.contains(f(v)));
    assert(mi.to_multiset().count(f(v)) > 0);
    assert(mi.to_multiset() =~= m.to_multiset().insert(f(v)));
}

/// Filtering a concatenation filters each piece.
pub proof fn lemma_flat_map_filter<T, X>(s: Seq<T>, g: spec_fn(int, T) -> Seq<X>, p: spec_fn(X) -> bool)
    ensures
        flat_map(s, g).filter(p) == flat_map(s, |i: int, x: T| g(i, x).filter(p)),
    decreases s.len(),
{
    if s.len() > 0 {
        lemma_flat_map_filter(s.drop_last(), g, p);
        Seq::filter_distributes_over_add(flat_map(s.drop_last(), g), g(s.len() - 1, s.last()), p);
    } else {
        assert(flat_map(s, g).filter(p) =~= Seq::<X>::empty()) by {
            reveal(Seq::filter);
        }
    }
}

/// Where every piece but the one at `k` is empty, the concatenation is that piece.
pub proof fn lemma_flat_map_single<T, X>(s: Seq<T>, g: spec_fn(int, T) -> Seq<X>, k: int)
    requires
        0 <= k < s.len(),
        forall|i: int| 0 <= i < s.len() && i != k ==> g(i, #[trigger] s[i]).len() == 0,
    ensures
        flat_map(s, g) == g(k, s[k]),
    decreases s.len(),
{
    let n = s.len() - 1;
    if k < n {
        lemma_flat_map_single(s.drop_last(), g, k);
        assert(g(n, s[n]).len() == 0);
        assert(flat_map(s, g) =~= g(k, s[k]));
    } else {
        lemma_flat_map_empty(s.drop_last(), g);
        assert(flat_map(s, g) =~= g(k, s[k]));
    }
}

/// Where every piece is empty but those at positions holding `x`, and `x`
/// stands at `k` alone, the concatenation is the piece at `k`.
pub proof fn lemma_flat_map_single_except<T, X>(s: Seq<T>, g: spec_fn(int, T) -> Seq<X>, k: int, x: T)
    requires
        0 <= k < s.len(),
        s[k] == x,
        forall|i: int| 0 <= i < s.len() && i != k && s[i] != x ==> g(i, #[trigger] s[i]).len() == 0,
        forall|i: int| 0 <= i < s.len() && i != k ==> s[i] != x,
    ensures
        flat_map(s, g) == g(k, s[k]),
{
    assert forall|i: int| 0 <= i < s.len() && i != k implies g(i, #[trigger] s[i]).len() == 0 by {
        assert(s[i] != x);
    }
    lemma_flat_map_single(s, g, k);
}

} // verus!
