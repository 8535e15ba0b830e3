//! The rule that both caches follow: one entry per distinct key, in the order
//! in which the keys were first requested, and the position of an entry as its
//! handle.

use vstd::prelude::*;

verus! {

/// The position that answers a request for `key`: where it sits among `keys`,
/// or the next free position when it is absent.
pub open spec fn handle_for<K>(keys: Seq<K>, key: K) -> int {
    if keys.contains(key) {
        keys.index_of(key)
    } else {
        keys.len() as int
    }
}

/// The cached keys after a request for `key`: unchanged on a hit, one longer
/// on a miss.
pub open spec fn keys_after<K>(keys: Seq<K>, key: K) -> Seq<K> {
    if keys.contains(key) {
        keys
    } else {
        keys.push(key)
    }
}

/// How many builds a request for `key` causes: one when it is absent, else none.
pub open spec fn builds_for<K>(keys: Seq<K>, key: K) -> int {
    if keys.contains(key) {
        0
    } else {
        1
    }
}

/// A counter one step on, held at the largest value it can show.
pub open spec fn bumped(count: u64) -> u64 {
    if count < u64::MAX {
        (count + 1) as u64
    } else {
        count
    }
}

/// In a list without repeats, the position at which a key is found is the
/// handle that a request for it gets.
pub proof fn lemma_position_is_handle<K>(keys: Seq<K>, key: K, k: int)
    requires
        keys.no_duplicates(),
        0 <= k < keys.len(),
        keys[k] == key,
    ensures
        keys.contains(key),
        handle_for(keys, key) == k,
{
    assert(keys.contains(key));
    let found = keys.index_of(key);
    assert(0 <= found < keys.len() && keys[found] == key);
}

/// A handle given out for a key that is present names the entry that holds it.
pub proof fn lemma_handle_names_key<K>(keys: Seq<K>, key: K)
    requires
        keys.contains(key),
    ensures
        0 <= handle_for(keys, key) < keys.len(),
        keys[handle_for(keys, key)] == key,
{
    let found = keys.index_of(key);
    assert(0 <= found < keys.len() && keys[found] == key);
}

/// Appending a key that is absent keeps the list free of repeats.
pub proof fn lemma_push_absent_keeps_distinct<K>(keys: Seq<K>, key: K)
    requires
        keys.no_duplicates(),
        !keys.contains(key),
    ensures
        keys.push(key).no_duplicates(),
{
    let longer = keys.push(key);
    assert forall|i: int, j: int| 0 <= i < longer.len() && 0 <= j < longer.len() && i != j
        implies longer[i] != longer[j] by {
        if i < keys.len() && j < keys.len() {
            assert(keys[i] != keys[j]);
        } else if i < keys.len() {
            assert(keys.contains(keys[i]));
        } else {
            assert(keys.contains(keys[j]));
        }
    }
}

/// Every request leaves the list free of repeats, keeps each earlier entry at
/// its position, and ends with the key present under the handle it was given.
pub proof fn lemma_request_keeps_order<K>(keys: Seq<K>, key: K)
    requires
        keys.no_duplicates(),
    ensures
        keys_after(keys, key).no_duplicates(),
        keys_after(keys, key).len() == keys.len() + builds_for(keys, key),
        keys_after(keys, key).take(keys.len() as int) == keys,
        keys_after(keys, key).contains(key),
        keys_after(keys, key)[handle_for(keys, key)] == key,
{
    let later = keys_after(keys, key);
    if keys.contains(key) {
        lemma_handle_names_key(keys, key);
        assert(later.take(keys.len() as int) =~= keys);
    } else {
        lemma_push_absent_keeps_distinct(keys, key);
        assert(later[keys.len() as int] == key);
        assert(later.take(keys.len() as int) =~= keys);
    }
}

/// Two requests for one key: the second finds what the first left, builds
/// nothing, and gets the same handle.
pub proof fn lemma_same_key_same_handle<K>(keys: Seq<K>, key: K)
    requires
        keys.no_duplicates(),
    ensures
        builds_for(keys_after(keys, key), key) == 0,
        keys_after(keys_after(keys, key), key) == keys_after(keys, key),
        handle_for(keys_after(keys, key), key) == handle_for(keys, key),
{
    lemma_request_keeps_order(keys, key);
    let later = keys_after(keys, key);
    if keys.contains(key) {
    } else {
        lemma_position_is_handle(later, key, keys.len() as int);
    }
}

/// Two requests for different keys get different handles, and the second key
/// is built exactly when it was absent before the first request.
pub proof fn lemma_other_key_other_handle<K>(keys: Seq<K>, a: K, b: K)
    requires
        keys.no_duplicates(),
        a != b,
    ensures
        handle_for(keys_after(keys, a), b) != handle_for(keys, a),
        builds_for(keys_after(keys, a), b) == builds_for(keys, b),
{
    lemma_request_keeps_order(keys, a);
    let later = keys_after(keys, a);
    let ha = handle_for(keys, a);
    assert(later[ha] == a);
    if keys.contains(b) {
        let k = keys.index_of(b);
        assert(0 <= k < keys.len() && keys[k] == b);
        assert(later[k] == b);
        lemma_position_is_handle(later, b, k);
    } else {
        if later.contains(b) {
            let k = later.index_of(b);
            assert(0 <= k < later.len() && later[k] == b);
            if k < keys.len() {
                assert(keys[k] == b);
                assert(keys.contains(b));
            }
        }
        assert(handle_for(later, b) == later.len());
    }
}

} // verus!
