//! Keys in a sequence of key/value pairs: the vocabulary in which the map's
//! contracts are written.

use vstd::prelude::*;
use vstd::std_specs::cmp::PartialEqSpec;

verus! {

/// Whether some pair of `entries` has the key `key`.
pub open spec fn has_key<K, V>(entries: Seq<(K, V)>, key: K) -> bool {
    exists|i: int| 0 <= i < entries.len() && (#[trigger] entries[i]).0 == key
}

/// A position in `entries` at which the key is `key`, where there is one.
pub open spec fn index_of_key<K, V>(entries: Seq<(K, V)>, key: K) -> int {
    choose|i: int| 0 <= i < entries.len() && (#[trigger] entries[i]).0 == key
}

/// No two pairs of `entries` have the same key.
pub open spec fn distinct_keys<K, V>(entries: Seq<(K, V)>) -> bool {
    forall|i: int, j: int|
        0 <= i < entries.len() && 0 <= j < entries.len() && i != j ==> (#[trigger] entries[i]).0
            != (#[trigger] entries[j]).0
}

/// The keys of `after` are those of `before` and `key`.
pub open spec fn gains_key<K, V>(before: Seq<(K, V)>, after: Seq<(K, V)>, key: K) -> bool {
    forall|k: K| #[trigger] has_key(after, k) <==> (k == key || has_key(before, k))
}

/// The keys of `after` are those of `before` without `key`.
pub open spec fn loses_key<K, V>(before: Seq<(K, V)>, after: Seq<(K, V)>, key: K) -> bool {
    forall|k: K| #[trigger] has_key(after, k) <==> (k != key && has_key(before, k))
}

/// `after` has the keys of `before`, no more and no fewer.
pub open spec fn same_keys<K, V>(before: Seq<(K, V)>, after: Seq<(K, V)>) -> bool {
    forall|k: K| #[trigger] has_key(after, k) <==> has_key(before, k)
}

/// `entries` after `key` was given the value `value` without moving: the
/// pair of `key` holds `value` in its old position where `key` is present;
/// otherwise `entries` is unchanged and `None` says so.
pub open spec fn replaced<K, V>(entries: Seq<(K, V)>, key: K, value: V) -> Option<Seq<(K, V)>> {
    if has_key(entries, key) {
        Some(entries.update(index_of_key(entries, key), (key, value)))
    } else {
        None
    }
}

/// `entries` after `key` and `value` were pushed to the back: a present key
/// keeps its position and takes the new value, an absent one is appended.
pub open spec fn pushed_back<K, V>(entries: Seq<(K, V)>, key: K, value: V) -> Seq<(K, V)> {
    match replaced(entries, key, value) {
        Some(updated) => updated,
        None => entries.push((key, value)),
    }
}

/// `entries` after `key` and `value` were pushed to the front: a present key
/// keeps its position and takes the new value, an absent one is put first.
pub open spec fn pushed_front<K, V>(entries: Seq<(K, V)>, key: K, value: V) -> Seq<(K, V)> {
    match replaced(entries, key, value) {
        Some(updated) => updated,
        None => seq![(key, value)] + entries,
    }
}

/// `entries` after each pair of `more` was pushed to the back in turn.
pub open spec fn extended<K, V>(entries: Seq<(K, V)>, more: Seq<(K, V)>) -> Seq<(K, V)>
    decreases more.len(),
{
    if more.len() == 0 {
        entries
    } else {
        pushed_back(extended(entries, more.drop_last()), more.last().0, more.last().1)
    }
}

/// The two sequences have the same length and, position by position, keys
/// and values that `==` takes for equal.
pub open spec fn pairwise_eq<K: PartialEq, V: PartialEq>(left: Seq<(K, V)>, right: Seq<(K, V)>) -> bool {
    &&& left.len() == right.len()
    &&& forall|i: int|
        0 <= i < left.len() ==> (#[trigger] left[i]).0.eq_spec(&right[i].0) && left[i].1.eq_spec(
            &right[i].1,
        )
}

/// Two sequences that each begin with one more pair are equal pair by pair
/// exactly if those two pairs are and the rests are.
pub proof fn lemma_pairwise_eq_step<K: PartialEq, V: PartialEq>(
    first_left: (K, V),
    rest_left: Seq<(K, V)>,
    first_right: (K, V),
    rest_right: Seq<(K, V)>,
)
    ensures
        pairwise_eq(seq![first_left] + rest_left, seq![first_right] + rest_right) == (
        first_left.0.eq_spec(&first_right.0) && first_left.1.eq_spec(&first_right.1) && pairwise_eq(
            rest_left,
            rest_right,
        )),
{
    let left = seq![first_left] + rest_left;
    let right = seq![first_right] + rest_right;
    if pairwise_eq(left, right) {
        assert(left[0] == first_left);
        assert forall|i: int| 0 <= i < rest_left.len() implies (#[trigger] rest_left[i]).0.eq_spec(
            &rest_right[i].0,
        ) && rest_left[i].1.eq_spec(&rest_right[i].1) by {
            assert(left[i + 1] == rest_left[i]);
        }
    }
}

/// A push to either end adds the key that was pushed to the keys, and
/// nothing else; among distinct keys it leaves the keys distinct.
pub proof fn lemma_pushed_keys<K, V>(entries: Seq<(K, V)>, key: K, value: V)
    ensures
        gains_key(entries, pushed_back(entries, key, value), key),
        gains_key(entries, pushed_front(entries, key, value), key),
        distinct_keys(entries) ==> distinct_keys(pushed_back(entries, key, value)) && distinct_keys(
            pushed_front(entries, key, value),
        ),
{
    let back = pushed_back(entries, key, value);
    let front = pushed_front(entries, key, value);
    if has_key(entries, key) {
        assert forall|k: K| #[trigger] has_key(back, k) <==> (k == key || has_key(entries, k)) by {
            if has_key(entries, k) {
                let j = index_of_key(entries, k);
                assert(back[j].0 == entries[j].0);
            }
        }
    } else {
        assert forall|k: K| #[trigger] has_key(back, k) <==> (k == key || has_key(entries, k)) by {
            if has_key(entries, k) {
                let j = index_of_key(entries, k);
                assert(back[j].0 == entries[j].0);
            }
            if k == key {
                assert(back[entries.len() as int].0 == key);
            }
        }
        assert forall|k: K| #[trigger] has_key(front, k) <==> (k == key || has_key(entries, k)) by {
            if has_key(entries, k) {
                let j = index_of_key(entries, k);
                assert(front[j + 1].0 == entries[j].0);
            }
            if k == key {
                assert(front[0].0 == key);
            }
        }
    }
}

/// Among distinct keys, removing the pair at a position takes its key from
/// the keys, and nothing else; the keys stay distinct.
pub proof fn lemma_removed_keys<K, V>(entries: Seq<(K, V)>, i: int)
    requires
        distinct_keys(entries),
        0 <= i < entries.len(),
    ensures
        loses_key(entries, entries.remove(i), entries[i].0),
        distinct_keys(entries.remove(i)),
{
    let rest = entries.remove(i);
    assert forall|k: K| #[trigger] has_key(rest, k) <==> (k != entries[i].0 && has_key(entries, k)) by {
        if k != entries[i].0 && has_key(entries, k) {
            let at = index_of_key(entries, k);
            let then = if at < i { at } else { at - 1 };
            assert(rest[then].0 == entries[at].0);
        }
    }
}

} // verus!
