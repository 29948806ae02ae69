//! The order of intersections along a ray, as mathematics: what it means
//! for a sequence to be ascending, where a new item belongs, and what
//! inserting one item after the other makes of any sequence.

use vstd::prelude::*;
use crate::intersection::Intersection;

verus! {

/// No item is followed by one with a smaller key.
pub open spec fn ascending<'a>(s: Seq<Intersection<'a>>) -> bool {
    forall|i: int, j: int| 0 <= i <= j < s.len() ==> s[i].key() <= s[j].key()
}

/// How many items of `s` have a key of at most `key`.
pub open spec fn count_up_to<'a>(s: Seq<Intersection<'a>>, key: int) -> nat
    decreases s.len(),
{
    if s.len() == 0 {
        0
    } else {
        count_up_to(s.drop_last(), key) + if s.last().key() <= key {
            1nat
        } else {
            0nat
        }
    }
}

/// `s` with `x` put behind every item whose key is at most that of `x`. In an
/// ascending `s` that is the one place that keeps it ascending and leaves
/// `x` behind the items it ties with.
pub open spec fn inserted<'a>(s: Seq<Intersection<'a>>, x: Intersection<'a>) -> Seq<
    Intersection<'a>,
> {
    s.insert(count_up_to(s, x.key()) as int, x)
}

/// `s` after the items of `xs` were inserted one after the other.
pub open spec fn inserted_all<'a>(s: Seq<Intersection<'a>>, xs: Seq<Intersection<'a>>) -> Seq<
    Intersection<'a>,
>
    decreases xs.len(),
{
    if xs.len() == 0 {
        s
    } else {
        inserted(inserted_all(s, xs.drop_last()), xs.last())
    }
}

/// In an ascending sequence the items with a key of at most `key` are exactly
/// the first `count_up_to(s, key)` ones.
pub proof fn lemma_count_splits<'a>(s: Seq<Intersection<'a>>, key: int)
    requires
        ascending(s),
    ensures
        count_up_to(s, key) <= s.len(),
        forall|i: int| 0 <= i < count_up_to(s, key) ==> s[i].key() <= key,
        forall|i: int| count_up_to(s, key) <= i < s.len() ==> s[i].key() > key,
    decreases s.len(),
{
    if s.len() > 0 {
        let front = s.drop_last();
        lemma_count_splits(front, key);
        assert(forall|i: int| 0 <= i < front.len() ==> front[i] == s[i]);
        if s.last().key() <= key {
            let k = count_up_to(front, key) as int;
            if k < front.len() {
                assert(front[k].key() > key);
                assert(s[k].key() <= s[s.len() - 1].key());
            }
        }
    }
}

/// The place that `count_up_to` names is the only one that splits an
/// ascending sequence at `key`.
pub proof fn lemma_count_is<'a>(s: Seq<Intersection<'a>>, key: int, k: int)
    requires
        0 <= k <= s.len(),
        forall|i: int| 0 <= i < k ==> s[i].key() <= key,
        forall|i: int| k <= i < s.len() ==> s[i].key() > key,
    ensures
        count_up_to(s, key) == k,
    decreases s.len(),
{
    if s.len() > 0 {
        let front = s.drop_last();
        assert(forall|i: int| 0 <= i < front.len() ==> front[i] == s[i]);
        if k == s.len() {
            lemma_count_is(front, key, k - 1);
        } else {
            lemma_count_is(front, key, k);
        }
    }
}

/// Inserting into an ascending sequence gives an ascending sequence with the
/// same items and the new one.
pub proof fn lemma_inserted_ascending<'a>(s: Seq<Intersection<'a>>, x: Intersection<'a>)
    requires
        ascending(s),
    ensures
        ascending(inserted(s, x)),
        inserted(s, x).len() == s.len() + 1,
        inserted(s, x).to_multiset() == s.to_multiset().insert(x),
{
    lemma_count_splits(s, x.key());
    let k = count_up_to(s, x.key()) as int;
    let r = inserted(s, x);
    assert forall|i: int, j: int| 0 <= i <= j < r.len() implies r[i].key() <= r[j].key() by {
        if i < k && j > k {
            assert(r[i] == s[i] && r[j] == s[j - 1]);
        }
    }
    vstd::seq_lib::to_multiset_insert(s, k, x);
}

/// Inserting `xs` and then `x` is inserting `xs` with `x` at its end.
pub proof fn lemma_inserted_all_push<'a>(
    s: Seq<Intersection<'a>>,
    xs: Seq<Intersection<'a>>,
    x: Intersection<'a>,
)
    ensures
        inserted_all(s, xs.push(x)) == inserted(inserted_all(s, xs), x),
{
    assert(xs.push(x).drop_last() =~= xs);
}

/// Whatever is inserted, in whatever order, into an ascending sequence: the
/// result is ascending and holds exactly the old items and the new ones.
pub proof fn lemma_inserted_all_ascending<'a>(s: Seq<Intersection<'a>>, xs: Seq<Intersection<'a>>)
    requires
        ascending(s),
    ensures
        ascending(inserted_all(s, xs)),
        inserted_all(s, xs).len() == s.len() + xs.len(),
        inserted_all(s, xs).to_multiset() == s.to_multiset().add(xs.to_multiset()),
    decreases xs.len(),
{
    if xs.len() == 0 {
        assert(xs.to_multiset() =~= vstd::multiset::Multiset::empty()) by {
            xs.to_multiset_ensures();
        }
        assert(s.to_multiset().add(xs.to_multiset()) =~= s.to_multiset());
    } else {
        let front = xs.drop_last();
        lemma_inserted_all_ascending(s, front);
        lemma_inserted_ascending(inserted_all(s, front), xs.last());
        assert(xs =~= front.push(xs.last()));
        front.to_multiset_ensures();
        assert(xs.to_multiset() =~= front.to_multiset().insert(xs.last()));
        assert(inserted_all(s, xs).to_multiset() =~= s.to_multiset().add(xs.to_multiset()));
    }
}

/// Whether an intersection has key `k`.
pub open spec fn has_key<'a>(k: int) -> spec_fn(Intersection<'a>) -> bool {
    |x: Intersection<'a>| x.key() == k
}

/// Where no item has key `k`, none is left when the others are taken out.
pub proof fn lemma_none_at_key<'a>(s: Seq<Intersection<'a>>, k: int)
    requires
        forall|i: int| 0 <= i < s.len() ==> s[i].key() != k,
    ensures
        s.filter(has_key(k)) == Seq::<Intersection<'a>>::empty(),
    decreases s.len(),
{
    reveal(Seq::filter);
    if s.len() > 0 {
        let front = s.drop_last();
        assert(forall|i: int| 0 <= i < front.len() ==> front[i] == s[i]);
        lemma_none_at_key(front, k);
    }
}

/// Insertion is stable: among the items with one key, the new item stands
/// last, and the others keep their order.
pub proof fn lemma_inserted_stable<'a>(s: Seq<Intersection<'a>>, x: Intersection<'a>, k: int)
    requires
        ascending(s),
    ensures
        inserted(s, x).filter(has_key(k)) == (if x.key() == k {
            s.filter(has_key(k)).push(x)
        } else {
            s.filter(has_key(k))
        }),
{
    lemma_count_splits(s, x.key());
    let n = count_up_to(s, x.key()) as int;
    let head = s.subrange(0, n);
    let tail = s.subrange(n, s.len() as int);
    let p = has_key(k);
    assert(s =~= head + tail);
    assert(inserted(s, x) =~= head.push(x) + tail);
    Seq::filter_distributes_over_add(head, tail, p);
    Seq::filter_distributes_over_add(head.push(x), tail, p);
    assert(head.push(x).drop_last() =~= head);
    assert(head.push(x).filter(p) == (if x.key() == k {
        head.filter(p).push(x)
    } else {
        head.filter(p)
    })) by {
        reveal(Seq::filter);
    }
    if x.key() == k {
        lemma_none_at_key(tail, k);
        assert(head.filter(p).push(x) + Seq::<Intersection<'a>>::empty() =~= head.filter(
            p,
        ).push(x));
        assert(head.filter(p) + Seq::<Intersection<'a>>::empty() =~= head.filter(p));
    }
}

/// However many items are inserted: those with one key stand in the result
/// in the order in which they came, behind those that were there before.
pub proof fn lemma_inserted_all_stable<'a>(
    s: Seq<Intersection<'a>>,
    xs: Seq<Intersection<'a>>,
    k: int,
)
    requires
        ascending(s),
    ensures
        inserted_all(s, xs).filter(has_key(k)) == s.filter(has_key(k)) + xs.filter(has_key(k)),
    decreases xs.len(),
{
    let p = has_key(k);
    reveal(Seq::filter);
    if xs.len() == 0 {
        assert(s.filter(p) + xs.filter(p) =~= s.filter(p));
    } else {
        let front = xs.drop_last();
        lemma_inserted_all_stable(s, front, k);
        lemma_inserted_all_ascending(s, front);
        lemma_inserted_stable(inserted_all(s, front), xs.last(), k);
        if xs.last().key() == k {
            assert((s.filter(p) + front.filter(p)).push(xs.last()) =~= s.filter(p)
                + front.filter(p).push(xs.last()));
        }
    }
}

/// An ascending sequence that holds an item with key `k` ends in a key of
/// at least `k`.
proof fn lemma_last_key_bounds<'a>(s: Seq<Intersection<'a>>, k: int)
    requires
        ascending(s),
        s.filter(has_key(k)).len() > 0,
    ensures
        s.len() > 0,
        k <= s.last().key(),
{
    let found = s.filter(has_key(k));
    let e = found[0];
    s.lemma_filter_pred(has_key(k), 0);
    assert(found.contains(e));
    s.lemma_filter_contains_rev(has_key(k), e);
    let j = choose|j: int| 0 <= j < s.len() && s[j] == e;
    assert(s[j].key() <= s[s.len() - 1].key());
}

/// The order that insertion leaves is the only one of its kind: two
/// ascending sequences that hold, under every key, the same items in the
/// same order are one and the same sequence.
pub proof fn lemma_order_unique<'a>(a: Seq<Intersection<'a>>, b: Seq<Intersection<'a>>)
    requires
        ascending(a),
        ascending(b),
        forall|k: int| #[trigger] a.filter(has_key(k)) == b.filter(has_key(k)),
    ensures
        a == b,
    decreases a.len(),
{
    reveal(Seq::filter);
    if a.len() == 0 {
        if b.len() > 0 {
            let kb = b.last().key();
            assert(a.filter(has_key(kb)) == b.filter(has_key(kb)));
            assert(b.filter(has_key(kb)).len() > 0);
        }
        assert(a =~= b);
    } else {
        let ka = a.last().key();
        assert(a.filter(has_key(ka)) == b.filter(has_key(ka)));
        assert(a.filter(has_key(ka)) == a.drop_last().filter(has_key(ka)).push(a.last()));
        lemma_last_key_bounds(b, ka);
        let kb = b.last().key();
        assert(a.filter(has_key(kb)) == b.filter(has_key(kb)));
        assert(b.filter(has_key(kb)) == b.drop_last().filter(has_key(kb)).push(b.last()));
        lemma_last_key_bounds(a, kb);
        assert(ka == kb);
        assert(a.last() == a.filter(has_key(ka)).last());
        assert(b.last() == b.filter(has_key(ka)).last());
        let front_a = a.drop_last();
        let front_b = b.drop_last();
        assert forall|k: int| #[trigger]
            front_a.filter(has_key(k)) == front_b.filter(has_key(k)) by {
            assert(a.filter(has_key(k)) == b.filter(has_key(k)));
            if k == ka {
                assert(front_a.filter(has_key(k)) =~= a.filter(has_key(k)).drop_last());
                assert(front_b.filter(has_key(k)) =~= b.filter(has_key(k)).drop_last());
            }
        }
        assert(forall|i: int| 0 <= i < front_a.len() ==> front_a[i] == a[i]);
        assert(forall|i: int| 0 <= i < front_b.len() ==> front_b[i] == b[i]);
        lemma_order_unique(front_a, front_b);
        assert(a =~= front_a.push(a.last()));
        assert(b =~= front_b.push(b.last()));
    }
}

/// Inserting one by one sorts stably, and nothing else does: a sequence is
/// what insertion makes of `xs` exactly when it is ascending and holds,
/// under every key, the items of `xs` with that key in the order in which
/// they stand in `xs`.
pub proof fn lemma_inserted_all_is_stable_order<'a>(
    xs: Seq<Intersection<'a>>,
    r: Seq<Intersection<'a>>,
)
    ensures
        r == inserted_all(Seq::empty(), xs) <==> ascending(r) && forall|k: int| #[trigger]
            r.filter(has_key(k)) == xs.filter(has_key(k)),
{
    let empty = Seq::<Intersection<'a>>::empty();
    let sorted = inserted_all(empty, xs);
    lemma_inserted_all_ascending(empty, xs);
    assert forall|k: int| #[trigger] sorted.filter(has_key(k)) == xs.filter(has_key(k)) by {
        lemma_inserted_all_stable(empty, xs, k);
        lemma_none_at_key(empty, k);
        assert(empty + xs.filter(has_key(k)) =~= xs.filter(has_key(k)));
    }
    if ascending(r) && forall|k: int| #[trigger] r.filter(has_key(k)) == xs.filter(has_key(k)) {
        assert forall|k: int| #[trigger] r.filter(has_key(k)) == sorted.filter(has_key(k)) by {
            assert(r.filter(has_key(k)) == xs.filter(has_key(k)));
            assert(sorted.filter(has_key(k)) == xs.filter(has_key(k)));
        }
        lemma_order_unique(r, sorted);
    }
}

/// The keys of the items, in their order.
pub open spec fn keys<'a>(s: Seq<Intersection<'a>>) -> Seq<int> {
    Seq::new(s.len(), |i: int| s[i].key())
}

/// The order of the integers.
pub open spec fn at_most() -> spec_fn(int, int) -> bool {
    |a: int, b: int| a <= b
}

/// The keys that stand in the collection after insertions are the keys that
/// were there and the keys that came, in ascending order.
pub proof fn lemma_keys_of_inserted_all<'a>(s: Seq<Intersection<'a>>, xs: Seq<Intersection<'a>>)
    requires
        ascending(s),
    ensures
        vstd::relations::sorted_by(keys(inserted_all(s, xs)), at_most()),
        keys(inserted_all(s, xs)).to_multiset() == keys(s).to_multiset().add(
            keys(xs).to_multiset(),
        ),
    decreases xs.len(),
{
    lemma_inserted_all_ascending(s, xs);
    let r = inserted_all(s, xs);
    assert forall|i: int, j: int| 0 <= i < j < keys(r).len() implies #[trigger] at_most()(
        keys(r)[i],
        keys(r)[j],
    ) by {
        assert(r[i].key() <= r[j].key());
    }
    if xs.len() == 0 {
        assert(keys(xs) =~= Seq::<int>::empty());
        keys(xs).to_multiset_ensures();
        assert(keys(s).to_multiset().add(keys(xs).to_multiset()) =~= keys(s).to_multiset());
    } else {
        let front = xs.drop_last();
        let x = xs.last();
        let mid = inserted_all(s, front);
        lemma_keys_of_inserted_all(s, front);
        lemma_inserted_all_ascending(s, front);
        lemma_count_splits(mid, x.key());
        let n = count_up_to(mid, x.key()) as int;
        assert(keys(r) =~= keys(mid).insert(n, x.key()));
        vstd::seq_lib::to_multiset_insert(keys(mid), n, x.key());
        assert(keys(xs) =~= keys(front).push(x.key()));
        vstd::seq_lib::to_multiset_build(keys(front), x.key());
        assert(keys(r).to_multiset() =~= keys(s).to_multiset().add(keys(xs).to_multiset()));
    }
}

/// The order of insertion does not show in the distances: two runs of
/// insertions that bring the same keys, each as often as the other, leave
/// the same sequence of keys.
pub proof fn lemma_insertion_order_irrelevant<'a>(
    xs: Seq<Intersection<'a>>,
    ys: Seq<Intersection<'a>>,
)
    requires
        keys(xs).to_multiset() == keys(ys).to_multiset(),
    ensures
        keys(inserted_all(Seq::empty(), xs)) == keys(inserted_all(Seq::empty(), ys)),
{
    let empty = Seq::<Intersection<'a>>::empty();
    lemma_keys_of_inserted_all(empty, xs);
    lemma_keys_of_inserted_all(empty, ys);
    assert(vstd::relations::total_ordering(at_most()));
    vstd::seq_lib::lemma_sorted_unique(
        keys(inserted_all(empty, xs)),
        keys(inserted_all(empty, ys)),
        at_most(),
    );
}

} // verus!
