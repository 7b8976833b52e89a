//! What it means to sort a sequence by a key without reordering equal keys.
//!
//! The clock filter orders its samples by delay and the selector orders the
//! ends of its intervals by position. Both need the order among equal keys to
//! be the order in which the items came, so both are stated over the one
//! definition given here.

use vstd::prelude::*;

verus! {

/// `sorted` with `item` placed behind every element whose key is not larger
/// than its own, and in front of the larger ones that end the sequence.
pub open spec fn insert_stable<T>(sorted: Seq<T>, item: T, key: spec_fn(T) -> int) -> Seq<T>
    decreases sorted.len(),
{
    if sorted.len() == 0 {
        seq![item]
    } else if key(sorted.last()) <= key(item) {
        sorted.push(item)
    } else {
        insert_stable(sorted.drop_last(), item, key).push(sorted.last())
    }
}

/// The elements of `s` in ascending order of key, those of equal key in the
/// order they have in `s`.
pub open spec fn stable_sorted<T>(s: Seq<T>, key: spec_fn(T) -> int) -> Seq<T>
    decreases s.len(),
{
    if s.len() == 0 {
        s
    } else {
        insert_stable(stable_sorted(s.drop_last(), key), s.last(), key)
    }
}

/// No element of `s` has a larger key than one that follows it.
pub open spec fn is_ordered<T>(s: Seq<T>, key: spec_fn(T) -> int) -> bool {
    forall|i: int, j: int| 0 <= i <= j < s.len() ==> key(#[trigger] s[i]) <= key(#[trigger] s[j])
}

/// Where the item lands: behind the first `at` elements, when every element
/// from `at` on has a larger key and the one before `at` has not.
pub proof fn lemma_insert_position<T>(sorted: Seq<T>, item: T, key: spec_fn(T) -> int, at: int)
    requires
        0 <= at <= sorted.len(),
        forall|k: int| at <= k < sorted.len() ==> key(#[trigger] sorted[k]) > key(item),
        at > 0 ==> key(sorted[at - 1]) <= key(item),
    ensures
        insert_stable(sorted, item, key) == sorted.subrange(0, at).push(item) + sorted.subrange(
            at,
            sorted.len() as int,
        ),
    decreases sorted.len(),
{
    let n = sorted.len() as int;
    if n == 0 {
        assert(insert_stable(sorted, item, key) =~= sorted.subrange(0, at).push(item)
            + sorted.subrange(at, n));
    } else if at == n {
        assert(key(sorted.last()) <= key(item));
        assert(sorted.subrange(0, at) =~= sorted);
        assert(sorted.push(item) =~= sorted.subrange(0, at).push(item) + sorted.subrange(at, n));
    } else {
        assert(key(sorted[n - 1]) > key(item));
        let front = sorted.drop_last();
        assert forall|k: int| at <= k < front.len() implies key(#[trigger] front[k]) > key(
            item,
        ) by {
            assert(front[k] == sorted[k]);
        }
        if at > 0 {
            assert(front[at - 1] == sorted[at - 1]);
        }
        lemma_insert_position(front, item, key, at);
        assert(front.subrange(0, at) =~= sorted.subrange(0, at));
        assert((front.subrange(0, at).push(item) + front.subrange(at, n - 1)).push(sorted.last())
            =~= sorted.subrange(0, at).push(item) + sorted.subrange(at, n));
    }
}

/// Inserting keeps the length, up to the one new element.
pub proof fn lemma_insert_len<T>(sorted: Seq<T>, item: T, key: spec_fn(T) -> int)
    ensures
        insert_stable(sorted, item, key).len() == sorted.len() + 1,
    decreases sorted.len(),
{
    if sorted.len() > 0 && key(sorted.last()) > key(item) {
        lemma_insert_len(sorted.drop_last(), item, key);
    }
}

/// Sorting keeps the length.
pub proof fn lemma_stable_sorted_len<T>(s: Seq<T>, key: spec_fn(T) -> int)
    ensures
        stable_sorted(s, key).len() == s.len(),
    decreases s.len(),
{
    if s.len() > 0 {
        lemma_stable_sorted_len(s.drop_last(), key);
        lemma_insert_len(stable_sorted(s.drop_last(), key), s.last(), key);
    }
}

/// Every element of the result of an insertion is the new item or was there
/// before, and the new item is in it.
pub proof fn lemma_insert_members<T>(sorted: Seq<T>, item: T, key: spec_fn(T) -> int)
    ensures
        forall|x: T| #[trigger]
            insert_stable(sorted, item, key).contains(x) <==> (x == item || sorted.contains(x)),
    decreases sorted.len(),
{
    let out = insert_stable(sorted, item, key);
    if sorted.len() == 0 {
        assert(out[0] == item);
        assert forall|x: T| #[trigger] out.contains(x) <==> (x == item || sorted.contains(x)) by {}
    } else if key(sorted.last()) <= key(item) {
        assert(out =~= sorted.push(item));
        assert forall|x: T| #[trigger] out.contains(x) <==> (x == item || sorted.contains(x)) by {
            if out.contains(x) {
                let i = choose|i: int| 0 <= i < out.len() && out[i] == x;
                if i < sorted.len() {
                    assert(sorted[i] == x);
                }
            }
            if x == item {
                assert(out[sorted.len() as int] == x);
            }
            if sorted.contains(x) {
                let i = choose|i: int| 0 <= i < sorted.len() && sorted[i] == x;
                assert(out[i] == x);
            }
        }
    } else {
        let front = sorted.drop_last();
        let inner = insert_stable(front, item, key);
        lemma_insert_members(front, item, key);
        lemma_insert_len(front, item, key);
        assert(out =~= inner.push(sorted.last()));
        assert forall|x: T| #[trigger] out.contains(x) <==> (x == item || sorted.contains(x)) by {
            if out.contains(x) {
                let i = choose|i: int| 0 <= i < out.len() && out[i] == x;
                if i < inner.len() {
                    assert(inner[i] == x);
                    assert(inner.contains(x));
                    if x != item {
                        let j = choose|j: int| 0 <= j < front.len() && front[j] == x;
                        assert(sorted[j] == x);
                    }
                } else {
                    assert(sorted[sorted.len() - 1] == x);
                }
            }
            if x == item {
                assert(inner.contains(x));
                let i = choose|i: int| 0 <= i < inner.len() && inner[i] == x;
                assert(out[i] == x);
            }
            if sorted.contains(x) {
                let i = choose|i: int| 0 <= i < sorted.len() && sorted[i] == x;
                if i < front.len() {
                    assert(front[i] == x);
                    assert(front.contains(x));
                    assert(inner.contains(x));
                    let j = choose|j: int| 0 <= j < inner.len() && inner[j] == x;
                    assert(out[j] == x);
                } else {
                    assert(out[inner.len() as int] == x);
                }
            }
        }
    }
}

/// Inserting into an ordered sequence leaves it ordered.
pub proof fn lemma_insert_ordered<T>(sorted: Seq<T>, item: T, key: spec_fn(T) -> int)
    requires
        is_ordered(sorted, key),
    ensures
        is_ordered(insert_stable(sorted, item, key), key),
    decreases sorted.len(),
{
    let out = insert_stable(sorted, item, key);
    if sorted.len() == 0 {
    } else if key(sorted.last()) <= key(item) {
        assert forall|i: int, j: int| 0 <= i <= j < out.len() implies key(#[trigger] out[i])
            <= key(#[trigger] out[j]) by {
            if j < sorted.len() {
                assert(out[i] == sorted[i] && out[j] == sorted[j]);
            } else if i < sorted.len() {
                assert(out[i] == sorted[i]);
                assert(key(sorted[i]) <= key(sorted[sorted.len() - 1]));
            }
        }
    } else {
        let front = sorted.drop_last();
        let inner = insert_stable(front, item, key);
        assert forall|i: int, j: int| 0 <= i <= j < front.len() implies key(#[trigger] front[i])
            <= key(#[trigger] front[j]) by {
            assert(front[i] == sorted[i] && front[j] == sorted[j]);
        }
        lemma_insert_ordered(front, item, key);
        lemma_insert_members(front, item, key);
        lemma_insert_len(front, item, key);
        assert forall|i: int, j: int| 0 <= i <= j < out.len() implies key(#[trigger] out[i])
            <= key(#[trigger] out[j]) by {
            if j < inner.len() {
                assert(out[i] == inner[i] && out[j] == inner[j]);
            } else if i < inner.len() {
                assert(out[i] == inner[i]);
                assert(inner.contains(inner[i]));
                if inner[i] != item {
                    let k = choose|k: int| 0 <= k < front.len() && front[k] == inner[i];
                    assert(sorted[k] == inner[i]);
                    assert(key(sorted[k]) <= key(sorted[sorted.len() - 1]));
                }
            }
        }
    }
}

/// The result of sorting is ordered.
pub proof fn lemma_stable_sorted_ordered<T>(s: Seq<T>, key: spec_fn(T) -> int)
    ensures
        is_ordered(stable_sorted(s, key), key),
    decreases s.len(),
{
    if s.len() > 0 {
        lemma_stable_sorted_ordered(s.drop_last(), key);
        lemma_insert_ordered(stable_sorted(s.drop_last(), key), s.last(), key);
    }
}

/// Sorting neither adds nor drops an element.
pub proof fn lemma_stable_sorted_members<T>(s: Seq<T>, key: spec_fn(T) -> int)
    ensures
        forall|x: T| #[trigger] stable_sorted(s, key).contains(x) <==> s.contains(x),
    decreases s.len(),
{
    if s.len() > 0 {
        let front = s.drop_last();
        lemma_stable_sorted_members(front, key);
        lemma_insert_members(stable_sorted(front, key), s.last(), key);
        assert forall|x: T| #[trigger] stable_sorted(s, key).contains(x) <==> s.contains(x) by {
            if s.contains(x) {
                let i = choose|i: int| 0 <= i < s.len() && s[i] == x;
                if i < front.len() {
                    assert(front[i] == x);
                    assert(front.contains(x));
                }
            }
            if front.contains(x) {
                let i = choose|i: int| 0 <= i < front.len() && front[i] == x;
                assert(s[i] == x);
            }
            if x == s.last() {
                assert(s[s.len() - 1] == x);
            }
        }
    }
}

/// A sequence that is ordered already is its own sorted form.
pub proof fn lemma_ordered_is_fixed<T>(s: Seq<T>, key: spec_fn(T) -> int)
    requires
        is_ordered(s, key),
    ensures
        stable_sorted(s, key) == s,
    decreases s.len(),
{
    if s.len() > 0 {
        let front = s.drop_last();
        assert forall|i: int, j: int| 0 <= i <= j < front.len() implies key(#[trigger] front[i])
            <= key(#[trigger] front[j]) by {
            assert(front[i] == s[i] && front[j] == s[j]);
        }
        lemma_ordered_is_fixed(front, key);
        if front.len() > 0 {
            assert(front.last() == s[s.len() - 2]);
            assert(key(s[s.len() - 2]) <= key(s[s.len() - 1]));
        }
        assert(front.push(s.last()) =~= s);
    }
}

/// How many elements of `s` meet `wanted`.
pub open spec fn count_of<T>(s: Seq<T>, wanted: spec_fn(T) -> bool) -> nat
    decreases s.len(),
{
    if s.len() == 0 {
        0
    } else {
        count_of(s.drop_last(), wanted) + if wanted(s.last()) {
            1nat
        } else {
            0nat
        }
    }
}

/// The elements that a filter keeps are those that are counted.
pub proof fn lemma_count_is_filter_len<T>(s: Seq<T>, wanted: spec_fn(T) -> bool)
    ensures
        s.filter(wanted).len() == count_of(s, wanted),
    decreases s.len(),
{
    reveal(Seq::filter);
    if s.len() > 0 {
        lemma_count_is_filter_len(s.drop_last(), wanted);
    }
}

/// If every element that meets `narrow` meets `wide`, no more meet `narrow`
/// than `wide`.
pub proof fn lemma_count_implied<T>(s: Seq<T>, narrow: spec_fn(T) -> bool, wide: spec_fn(T) -> bool)
    requires
        forall|i: int| 0 <= i < s.len() && narrow(#[trigger] s[i]) ==> wide(s[i]),
    ensures
        count_of(s, narrow) <= count_of(s, wide),
    decreases s.len(),
{
    if s.len() > 0 {
        let front = s.drop_last();
        assert forall|i: int| 0 <= i < front.len() && narrow(#[trigger] front[i]) implies wide(
            front[i],
        ) by {
            assert(front[i] == s[i]);
        }
        lemma_count_implied(front, narrow, wide);
        assert(s.last() == s[s.len() - 1]);
    }
}

/// A part at the front holds no more of the wanted elements than the whole,
/// and as many if none stands behind it.
pub proof fn lemma_count_prefix<T>(s: Seq<T>, wanted: spec_fn(T) -> bool, end: int)
    requires
        0 <= end <= s.len(),
    ensures
        count_of(s.subrange(0, end), wanted) <= count_of(s, wanted),
        (forall|i: int| end <= i < s.len() ==> !wanted(#[trigger] s[i])) ==> count_of(
            s.subrange(0, end),
            wanted,
        ) == count_of(s, wanted),
    decreases s.len() - end,
{
    if end == s.len() {
        assert(s.subrange(0, end) =~= s);
    } else {
        let front = s.drop_last();
        lemma_count_prefix(front, wanted, end);
        assert(front.subrange(0, end) =~= s.subrange(0, end));
        assert(s.last() == s[s.len() - 1]);
        if forall|i: int| end <= i < s.len() ==> !wanted(#[trigger] s[i]) {
            assert forall|i: int| end <= i < front.len() implies !wanted(#[trigger] front[i]) by {
                assert(front[i] == s[i]);
            }
        }
    }
}

/// Inserting an element adds it to the count if it is wanted, and changes
/// the count in no other way.
pub proof fn lemma_insert_count<T>(
    sorted: Seq<T>,
    item: T,
    key: spec_fn(T) -> int,
    wanted: spec_fn(T) -> bool,
)
    ensures
        count_of(insert_stable(sorted, item, key), wanted) == count_of(sorted, wanted) + if wanted(
            item,
        ) {
            1nat
        } else {
            0nat
        },
    decreases sorted.len(),
{
    if sorted.len() == 0 {
        let out = insert_stable(sorted, item, key);
        assert(out.drop_last() =~= sorted);
        assert(out.last() == item);
    } else if key(sorted.last()) <= key(item) {
        let out = sorted.push(item);
        assert(out.drop_last() =~= sorted);
        assert(out.last() == item);
    } else {
        let front = sorted.drop_last();
        let inner = insert_stable(front, item, key);
        lemma_insert_count(front, item, key, wanted);
        let out = inner.push(sorted.last());
        assert(out.drop_last() =~= inner);
        assert(out.last() == sorted.last());
    }
}

/// Sorting changes no count: the result holds the same elements, each as
/// often as before.
pub proof fn lemma_stable_sorted_count<T>(
    s: Seq<T>,
    key: spec_fn(T) -> int,
    wanted: spec_fn(T) -> bool,
)
    ensures
        count_of(stable_sorted(s, key), wanted) == count_of(s, wanted),
    decreases s.len(),
{
    if s.len() > 0 {
        lemma_stable_sorted_count(s.drop_last(), key, wanted);
        lemma_insert_count(stable_sorted(s.drop_last(), key), s.last(), key, wanted);
    }
}

/// The condition of having the key `wanted`.
pub open spec fn has_key<T>(key: spec_fn(T) -> int, wanted: int) -> spec_fn(T) -> bool {
    |item: T| key(item) == wanted
}

/// Inserting an element puts it behind the elements of its own key, and
/// leaves the elements of every other key as they were.
pub proof fn lemma_insert_keeps_equal_keys_in_order<T>(
    sorted: Seq<T>,
    item: T,
    key: spec_fn(T) -> int,
    wanted: int,
)
    ensures
        insert_stable(sorted, item, key).filter(has_key(key, wanted)) == if key(item) == wanted {
            sorted.filter(has_key(key, wanted)).push(item)
        } else {
            sorted.filter(has_key(key, wanted))
        },
    decreases sorted.len(),
{
    reveal(Seq::filter);
    let same = has_key(key, wanted);
    if sorted.len() == 0 {
        let out = insert_stable(sorted, item, key);
        assert(out.drop_last() =~= sorted);
        assert(out.last() == item);
    } else if key(sorted.last()) <= key(item) {
        let out = sorted.push(item);
        assert(out.drop_last() =~= sorted);
        assert(out.last() == item);
    } else {
        let front = sorted.drop_last();
        let inner = insert_stable(front, item, key);
        lemma_insert_keeps_equal_keys_in_order(front, item, key, wanted);
        let out = inner.push(sorted.last());
        assert(out.drop_last() =~= inner);
        assert(out.last() == sorted.last());
        assert(!(same(item) && same(sorted.last())));
    }
}

/// Sorting is stable: the elements of any one key stand in the result in
/// the order in which they stood before. With [`lemma_stable_sorted_ordered`]
/// this leaves no choice for the result.
pub proof fn lemma_stable_sorted_keeps_equal_keys_in_order<T>(
    s: Seq<T>,
    key: spec_fn(T) -> int,
    wanted: int,
)
    ensures
        stable_sorted(s, key).filter(has_key(key, wanted)) == s.filter(has_key(key, wanted)),
    decreases s.len(),
{
    reveal(Seq::filter);
    if s.len() > 0 {
        lemma_stable_sorted_keeps_equal_keys_in_order(s.drop_last(), key, wanted);
        lemma_insert_keeps_equal_keys_in_order(
            stable_sorted(s.drop_last(), key),
            s.last(),
            key,
            wanted,
        );
    }
}

} // verus!
