//! Stable sorting: what it means, and what placing one item does.

use vstd::prelude::*;

verus! {

/// A strict order in which any two different keys can be told apart.
pub open spec fn strict_order<K>(before: spec_fn(K, K) -> bool) -> bool {
    &&& forall|a: K| !#[trigger] before(a, a)
    &&& forall|a: K, b: K| a != b ==> #[trigger] before(a, b) != before(b, a)
    &&& forall|a: K, b: K, c: K| #[trigger] before(a, b) && #[trigger] before(b, c) ==> before(a, c)
}

/// No item stands behind one whose key is greater.
pub open spec fn sorted<T, K>(
    s: Seq<T>,
    key: spec_fn(T) -> K,
    before: spec_fn(K, K) -> bool,
) -> bool {
    forall|i: int, j: int|
        0 <= i < j < s.len() ==> !before(key(#[trigger] s[j]), key(#[trigger] s[i]))
}

/// The items with a key, in order.
pub open spec fn with_key<T, K>(s: Seq<T>, key: spec_fn(T) -> K, k: K) -> Seq<T>
    decreases s.len(),
{
    if s.len() == 0 {
        Seq::empty()
    } else if key(s[0]) == k {
        seq![s[0]] + with_key(s.skip(1), key, k)
    } else {
        with_key(s.skip(1), key, k)
    }
}

/// Whether `now` holds the items of `was` in order, items that the order does not tell apart
/// as they stood.
pub open spec fn stably_sorted<T, K>(
    was: Seq<T>,
    now: Seq<T>,
    key: spec_fn(T) -> K,
    before: spec_fn(K, K) -> bool,
) -> bool {
    &&& now.len() == was.len()
    &&& sorted(now, key, before)
    &&& forall|k: K| #[trigger] with_key(now, key, k) == with_key(was, key, k)
}

/// The items with a key in two lists, one after the other.
pub proof fn lemma_with_key_joined<T, K>(a: Seq<T>, b: Seq<T>, key: spec_fn(T) -> K, k: K)
    ensures
        with_key(a + b, key, k) == with_key(a, key, k) + with_key(b, key, k),
    decreases a.len(),
{
    if a.len() == 0 {
        assert(a + b =~= b);
        assert(with_key(a, key, k) + with_key(b, key, k) =~= with_key(b, key, k));
    } else {
        lemma_with_key_joined(a.skip(1), b, key, k);
        assert((a + b).skip(1) =~= a.skip(1) + b);
        assert(with_key(a + b, key, k) =~= with_key(a, key, k) + with_key(b, key, k));
    }
}

proof fn lemma_without_key<T, K>(s: Seq<T>, key: spec_fn(T) -> K, k: K)
    requires
        forall|i: int| 0 <= i < s.len() ==> key(#[trigger] s[i]) != k,
    ensures
        with_key(s, key, k) == Seq::<T>::empty(),
    decreases s.len(),
{
    if s.len() > 0 {
        assert forall|i: int| 0 <= i < s.skip(1).len() implies key(#[trigger] s.skip(1)[i]) != k by {
            assert(s.skip(1)[i] == s[i + 1]);
        }
        lemma_without_key(s.skip(1), key, k);
    }
}

/// One item more, behind all that do not stand behind it, keeps a list stably sorted.
pub proof fn lemma_placed<T, K>(
    was: Seq<T>,
    now: Seq<T>,
    item: T,
    place: int,
    key: spec_fn(T) -> K,
    before: spec_fn(K, K) -> bool,
)
    requires
        strict_order(before),
        stably_sorted(was, now, key, before),
        0 <= place <= now.len(),
        forall|i: int| 0 <= i < place ==> !before(key(item), key(#[trigger] now[i])),
        place < now.len() ==> before(key(item), key(now[place])),
    ensures
        stably_sorted(was.push(item), now.insert(place, item), key, before),
{
    let k0 = key(item);
    let front = now.take(place);
    let back = now.skip(place);
    let all = now.insert(place, item);
    assert forall|i: int| place <= i < now.len() implies before(k0, key(#[trigger] now[i])) by {
        if i > place {
            assert(!before(key(now[i]), key(now[place])));
        }
    }
    assert forall|i: int, j: int| 0 <= i < j < all.len() implies !before(
        key(#[trigger] all[j]),
        key(#[trigger] all[i]),
    ) by {
        if i == place {
            assert(all[j] == now[j - 1]);
            assert(before(k0, key(now[j - 1])));
        } else if j == place {
            assert(all[i] == now[i]);
        } else {
            let a = if i < place {
                i
            } else {
                i - 1
            };
            let b = if j < place {
                j
            } else {
                j - 1
            };
            assert(all[i] == now[a] && all[j] == now[b]);
        }
    }
    assert forall|k: K| #[trigger] with_key(all, key, k) == with_key(was.push(item), key, k) by {
        let empty = Seq::<T>::empty();
        assert(all =~= front + (seq![item] + back));
        assert(now =~= front + back);
        assert(was.push(item) =~= was + seq![item]);
        lemma_with_key_joined(front, seq![item] + back, key, k);
        lemma_with_key_joined(seq![item], back, key, k);
        lemma_with_key_joined(front, back, key, k);
        lemma_with_key_joined(was, seq![item], key, k);
        assert(with_key(now, key, k) == with_key(was, key, k));
        let one = with_key(seq![item], key, k);
        assert(seq![item].skip(1) =~= empty);
        assert(with_key(empty, key, k) =~= empty);
        if k0 == k {
            assert forall|i: int| 0 <= i < back.len() implies key(#[trigger] back[i]) != k by {
                assert(back[i] == now[place + i]);
                assert(before(k0, key(now[place + i])));
            }
            lemma_without_key(back, key, k);
            assert(with_key(front, key, k) + (one + empty) =~= with_key(front, key, k) + empty
                + one);
        } else {
            assert(one =~= empty);
            assert(with_key(front, key, k) + (empty + with_key(back, key, k)) =~= with_key(
                front,
                key,
                k,
            ) + with_key(back, key, k) + empty);
        }
    }
}

/// Sorting adds no item.
pub proof fn lemma_sorted_members<T, K>(
    was: Seq<T>,
    now: Seq<T>,
    key: spec_fn(T) -> K,
    before: spec_fn(K, K) -> bool,
    i: int,
)
    requires
        stably_sorted(was, now, key, before),
        0 <= i < now.len(),
    ensures
        was.contains(now[i]),
{
    let k = key(now[i]);
    lemma_with_key_members(now, key, k, now[i]);
    lemma_with_key_members(was, key, k, now[i]);
    assert(now.contains(now[i]));
    assert(with_key(now, key, k) == with_key(was, key, k));
}

proof fn lemma_with_key_members<T, K>(s: Seq<T>, key: spec_fn(T) -> K, k: K, item: T)
    ensures
        with_key(s, key, k).contains(item) <==> s.contains(item) && key(item) == k,
    decreases s.len(),
{
    if s.len() > 0 {
        let rest = s.skip(1);
        lemma_with_key_members(rest, key, k, item);
        assert(s =~= seq![s[0]] + rest);
        assert(s.contains(item) <==> item == s[0] || rest.contains(item)) by {
            if rest.contains(item) {
                let j = choose|j: int| 0 <= j < rest.len() && rest[j] == item;
                assert(s[j + 1] == item);
            }
            if s.contains(item) && item != s[0] {
                let j = choose|j: int| 0 <= j < s.len() && s[j] == item;
                assert(rest[j - 1] == item);
            }
        }
        let kept = with_key(rest, key, k);
        if key(s[0]) == k {
            let all = seq![s[0]] + kept;
            assert(all.contains(item) <==> item == s[0] || kept.contains(item)) by {
                if kept.contains(item) {
                    let j = choose|j: int| 0 <= j < kept.len() && kept[j] == item;
                    assert(all[j + 1] == item);
                }
                if item == s[0] {
                    assert(all[0] == item);
                }
                if all.contains(item) && item != s[0] {
                    let j = choose|j: int| 0 <= j < all.len() && all[j] == item;
                    assert(kept[j - 1] == item);
                }
            }
        }
    }
}

/// Two items that sorting does not tell apart stand in the order in which they stood.
pub proof fn lemma_sorted_pairs<T, K>(
    was: Seq<T>,
    now: Seq<T>,
    key: spec_fn(T) -> K,
    before: spec_fn(K, K) -> bool,
    i: int,
    j: int,
)
    requires
        stably_sorted(was, now, key, before),
        0 <= i < j < now.len(),
        key(now[i]) == key(now[j]),
    ensures
        exists|a: int, b: int|
            0 <= a < b < was.len() && #[trigger] was[a] == now[i] && #[trigger] was[b] == now[j],
{
    let k = key(now[i]);
    lemma_pair_kept(now, key, k, i, j);
    let kept = with_key(now, key, k);
    let (a, b) = choose|a: int, b: int|
        0 <= a < b < kept.len() && #[trigger] kept[a] == now[i] && #[trigger] kept[b] == now[j];
    assert(kept == with_key(was, key, k));
    lemma_pair_found(was, key, k, a, b);
}

proof fn lemma_pair_kept<T, K>(s: Seq<T>, key: spec_fn(T) -> K, k: K, i: int, j: int)
    requires
        0 <= i < j < s.len(),
        key(s[i]) == k,
        key(s[j]) == k,
    ensures
        exists|a: int, b: int|
            0 <= a < b < with_key(s, key, k).len() && #[trigger] with_key(s, key, k)[a] == s[i]
                && #[trigger] with_key(s, key, k)[b] == s[j],
    decreases s.len(),
{
    let rest = s.skip(1);
    let kept = with_key(rest, key, k);
    let all = with_key(s, key, k);
    if i == 0 {
        assert(rest[j - 1] == s[j]);
        assert(rest.contains(s[j]));
        lemma_with_key_members(rest, key, k, s[j]);
        let b = choose|b: int| 0 <= b < kept.len() && kept[b] == s[j];
        assert(all[0] == s[i] && all[b + 1] == s[j]);
    } else {
        assert(rest[i - 1] == s[i] && rest[j - 1] == s[j]);
        lemma_pair_kept(rest, key, k, i - 1, j - 1);
        let (a, b) = choose|a: int, b: int|
            0 <= a < b < kept.len() && #[trigger] kept[a] == s[i] && #[trigger] kept[b] == s[j];
        if key(s[0]) == k {
            assert(all[a + 1] == s[i] && all[b + 1] == s[j]);
        } else {
            assert(all[a] == s[i] && all[b] == s[j]);
        }
    }
}

proof fn lemma_pair_found<T, K>(s: Seq<T>, key: spec_fn(T) -> K, k: K, a: int, b: int)
    requires
        0 <= a < b < with_key(s, key, k).len(),
    ensures
        exists|i: int, j: int|
            0 <= i < j < s.len() && #[trigger] s[i] == with_key(s, key, k)[a] && #[trigger] s[j]
                == with_key(s, key, k)[b],
    decreases s.len(),
{
    let rest = s.skip(1);
    let kept = with_key(rest, key, k);
    let all = with_key(s, key, k);
    if key(s[0]) == k && a == 0 {
        assert(all[b] == kept[b - 1]);
        assert(kept.contains(all[b]));
        lemma_with_key_members(rest, key, k, all[b]);
        let j = choose|j: int| 0 <= j < rest.len() && rest[j] == all[b];
        assert(s[0] == all[a] && s[j + 1] == all[b]);
    } else {
        let skipped: int = if key(s[0]) == k {
            1
        } else {
            0
        };
        lemma_pair_found(rest, key, k, a - skipped, b - skipped);
        let (i, j) = choose|i: int, j: int|
            0 <= i < j < rest.len() && #[trigger] rest[i] == kept[a - skipped] && #[trigger] rest[j]
                == kept[b - skipped];
        assert(s[i + 1] == all[a] && s[j + 1] == all[b]);
    }
}

/// What is sorted by its keys is sorted without them too, where the keys are those of the items
/// left.
pub proof fn lemma_keys_stripped<T, S, K>(
    was: Seq<T>,
    now: Seq<T>,
    key: spec_fn(T) -> K,
    strip: spec_fn(T) -> S,
    left_key: spec_fn(S) -> K,
    before: spec_fn(K, K) -> bool,
)
    requires
        stably_sorted(was, now, key, before),
        forall|i: int| 0 <= i < was.len() ==> left_key(strip(#[trigger] was[i])) == key(was[i]),
    ensures
        stably_sorted(was.map_values(strip), now.map_values(strip), left_key, before),
{
    assert forall|i: int| 0 <= i < now.len() implies left_key(strip(#[trigger] now[i])) == key(
        now[i],
    ) by {
        lemma_sorted_members(was, now, key, before, i);
    }
    assert forall|k: K| #[trigger]
        with_key(now.map_values(strip), left_key, k) == with_key(was.map_values(strip), left_key, k) by {
        lemma_with_key_stripped(was, key, strip, left_key, k);
        lemma_with_key_stripped(now, key, strip, left_key, k);
        assert(with_key(now, key, k) == with_key(was, key, k));
    }
}

proof fn lemma_with_key_stripped<T, S, K>(
    s: Seq<T>,
    key: spec_fn(T) -> K,
    strip: spec_fn(T) -> S,
    left_key: spec_fn(S) -> K,
    k: K,
)
    requires
        forall|i: int| 0 <= i < s.len() ==> left_key(strip(#[trigger] s[i])) == key(s[i]),
    ensures
        with_key(s.map_values(strip), left_key, k) == with_key(s, key, k).map_values(strip),
    decreases s.len(),
{
    if s.len() == 0 {
        assert(with_key(s.map_values(strip), left_key, k) =~= with_key(s, key, k).map_values(
            strip,
        ));
    } else {
        let rest = s.skip(1);
        assert forall|i: int| 0 <= i < rest.len() implies left_key(strip(#[trigger] rest[i]))
            == key(rest[i]) by {
            assert(rest[i] == s[i + 1]);
        }
        lemma_with_key_stripped(rest, key, strip, left_key, k);
        assert(s.map_values(strip).skip(1) =~= rest.map_values(strip));
        assert(left_key(strip(s[0])) == key(s[0]));
        assert(with_key(s.map_values(strip), left_key, k) =~= with_key(s, key, k).map_values(
            strip,
        ));
    }
}

// ---------------------------------------------------------------- laws

/// The items of a list with a key are those of them that have it, each of them, in its order.
pub proof fn law_items_with_a_key<T, K>(
    s: Seq<T>,
    key: spec_fn(T) -> K,
    k: K,
    has_it: spec_fn(T) -> bool,
)
    requires
        forall|x: T| #[trigger] has_it(x) <==> key(x) == k,
    ensures
        with_key(s, key, k) == s.filter(has_it),
    decreases s.len(),
{
    reveal(Seq::filter);
    if s.len() > 0 {
        law_items_with_a_key(s.skip(1), key, k, has_it);
        let head = seq![s[0]];
        assert(head + s.skip(1) =~= s);
        Seq::filter_distributes_over_add(head, s.skip(1), has_it);
        assert(head.drop_last() =~= Seq::empty());
        assert(head.drop_last().filter(has_it) =~= Seq::empty());
        assert(head.last() == s[0]);
        if has_it(s[0]) {
            assert(head.filter(has_it) =~= head);
        } else {
            assert(head.filter(has_it) =~= Seq::empty());
            assert(s.filter(has_it) =~= s.skip(1).filter(has_it));
        }
    }
}

/// A list that is stably sorted has no item before one that goes before it, and the items of one key
/// are those that there were, in the order in which they stood.
pub proof fn law_sorting_keeps_the_items<T, K>(
    was: Seq<T>,
    now: Seq<T>,
    key: spec_fn(T) -> K,
    before: spec_fn(K, K) -> bool,
    i: int,
    j: int,
    k: K,
    has_it: spec_fn(T) -> bool,
)
    requires
        stably_sorted(was, now, key, before),
        forall|x: T| #[trigger] has_it(x) <==> key(x) == k,
    ensures
        now.len() == was.len(),
        0 <= i < j < now.len() ==> !before(key(now[j]), key(now[i])),
        now.filter(has_it) == was.filter(has_it),
{
    law_items_with_a_key(was, key, k, has_it);
    law_items_with_a_key(now, key, k, has_it);
}

} // verus!
