//! The cache of resource-binding sets.
//!
//! A binding set ties an ordered list of buffers to the layout that a pipeline
//! expects. It depends on which buffers they are, not on what they hold: a
//! buffer rewritten in place keeps its binding set, a buffer allocated anew is
//! another buffer and needs another set.

use crate::build_once::{
    builds_for, bumped, handle_for, keys_after, lemma_other_key_other_handle,
    lemma_position_is_handle, lemma_push_absent_keeps_distinct, lemma_request_keeps_order,
    lemma_same_key_same_handle,
};
use vstd::prelude::*;

verus! {

/// What a binding set is cached under: the layout it was made for, and the
/// buffers it binds, in order.
#[verifier::ext_equal]
pub struct BindingKey {
    pub layout: u64,
    pub buffers: Seq<u64>,
}

/// Names one cached binding set: its position in build order.
#[derive(Clone, Copy, Debug, PartialEq, Eq, Structural)]
pub struct BindingHandle {
    pub index: usize,
}

/// The answer to a request: the handle, and whether it is new, in which case
/// the binding set behind it has yet to be built.
#[derive(Clone, Copy, Debug, PartialEq, Eq, Structural)]
pub struct BindingLookup {
    pub handle: BindingHandle,
    pub built: bool,
}

#[derive(Debug)]
struct BindingEntry {
    layout: u64,
    buffers: Vec<u64>,
}

impl View for BindingEntry {
    type V = BindingKey;

    closed spec fn view(&self) -> BindingKey {
        BindingKey { layout: self.layout, buffers: self.buffers@ }
    }
}

fn same_buffers(a: &Vec<u64>, b: &Vec<u64>) -> (same: bool)
    ensures
        same == (a@ == b@),
{
    if a.len() != b.len() {
        return false;
    }
    let mut i: usize = 0;
    while i < a.len()
        invariant
            i <= a.len(),
            a.len() == b.len(),
            forall|j: int| 0 <= j < i ==> a@[j] == b@[j],
        decreases a.len() - i,
    {
        if a[i] != b[i] {
            return false;
        }
        i += 1;
    }
    assert(a@ =~= b@);
    true
}

fn copy_buffers(buffers: &Vec<u64>) -> (copy: Vec<u64>)
    ensures
        copy@ == buffers@,
{
    let mut copy: Vec<u64> = Vec::new();
    let mut i: usize = 0;
    while i < buffers.len()
        invariant
            i <= buffers.len(),
            copy@ == buffers@.take(i as int),
        decreases buffers.len() - i,
    {
        copy.push(buffers[i]);
        assert(buffers@.take(i as int).push(buffers@[i as int]) =~= buffers@.take(i + 1));
        i += 1;
    }
    assert(buffers@.take(buffers.len() as int) =~= buffers@);
    copy
}

/// Binding sets built so far, one per distinct pair of layout and buffer list.
#[derive(Debug)]
pub struct ResourceBindingCache {
    entries: Vec<BindingEntry>,
    hits: u64,
}

impl ResourceBindingCache {
    /// No pair of layout and buffer list is cached twice.
    pub open spec fn wf(&self) -> bool {
        self.keys().no_duplicates()
    }

    /// The cached keys, in build order.
    pub closed spec fn keys(&self) -> Seq<BindingKey> {
        self.entries@.map_values(|entry: BindingEntry| entry@)
    }

    /// Requests answered from the cache so far.
    pub closed spec fn hit_count(&self) -> u64 {
        self.hits
    }

    /// An empty cache.
    pub fn new() -> (cache: ResourceBindingCache)
        ensures
            cache.wf(),
            cache.keys() == Seq::<BindingKey>::empty(),
            cache.hit_count() == 0,
    {
        let cache = ResourceBindingCache { entries: Vec::new(), hits: 0 };
        assert(cache.keys() =~= Seq::<BindingKey>::empty());
        cache
    }

    fn find(&self, layout: u64, buffers: &Vec<u64>) -> (found: Option<usize>)
        ensures
            match found {
                Some(k) => k < self.keys().len() && self.keys()[k as int] == (BindingKey {
                    layout,
                    buffers: buffers@,
                }),
                None => !self.keys().contains(BindingKey { layout, buffers: buffers@ }),
            },
    {
        let ghost key = BindingKey { layout, buffers: buffers@ };
        let mut i: usize = 0;
        while i < self.entries.len()
            invariant
                i <= self.entries.len(),
                key == (BindingKey { layout, buffers: buffers@ }),
                forall|j: int| 0 <= j < i ==> self.keys()[j] != key,
            decreases self.entries.len() - i,
        {
            if self.entries[i].layout == layout && same_buffers(&self.entries[i].buffers, buffers) {
                assert(self.keys()[i as int] =~= key);
                return Some(i);
            }
            i += 1;
        }
        None
    }

    /// Returns the handle of the binding set for `buffers` under `layout`. A
    /// pair seen before gets the handle it got then and nothing is built; a new
    /// pair is stored under the next handle and reported as `built`.
    pub fn get_or_build(&mut self, layout: u64, buffers: &Vec<u64>) -> (found: BindingLookup)
        requires
            old(self).wf(),
        ensures
            final(self).wf(),
            final(self).keys() == keys_after(
                old(self).keys(),
                BindingKey { layout, buffers: buffers@ },
            ),
            found.handle.index == handle_for(
                old(self).keys(),
                BindingKey { layout, buffers: buffers@ },
            ),
            found.built == !old(self).keys().contains(BindingKey { layout, buffers: buffers@ }),
            final(self).hit_count() == if found.built {
                old(self).hit_count()
            } else {
                bumped(old(self).hit_count())
            },
    {
        let ghost key = BindingKey { layout, buffers: buffers@ };
        match self.find(layout, buffers) {
            Some(k) => {
                if self.hits < u64::MAX {
                    self.hits = self.hits + 1;
                }
                proof {
                    lemma_position_is_handle(self.keys(), key, k as int);
                }
                BindingLookup { handle: BindingHandle { index: k }, built: false }
            },
            None => {
                let index = self.entries.len();
                let ghost before = self.keys();
                self.entries.push(BindingEntry { layout, buffers: copy_buffers(buffers) });
                proof {
                    assert(self.keys() =~= before.push(key));
                    lemma_push_absent_keeps_distinct(before, key);
                }
                BindingLookup { handle: BindingHandle { index }, built: true }
            },
        }
    }

    /// Whether a binding set for `buffers` under `layout` has been built.
    pub fn contains(&self, layout: u64, buffers: &Vec<u64>) -> (present: bool)
        ensures
            present == self.keys().contains(BindingKey { layout, buffers: buffers@ }),
    {
        self.find(layout, buffers).is_some()
    }

    /// How many binding sets have been built: one per cache miss.
    pub fn misses(&self) -> (count: usize)
        ensures
            count == self.keys().len(),
    {
        self.entries.len()
    }

    /// How many requests were answered without a build.
    pub fn hits(&self) -> (count: u64)
        ensures
            count == self.hit_count(),
    {
        self.hits
    }
}

/// Two requests with the same layout and the same ordered buffer list get the
/// same handle, and the second builds nothing.
pub proof fn lemma_same_buffers_same_handle(
    keys: Seq<BindingKey>,
    layout: u64,
    first: Seq<u64>,
    second: Seq<u64>,
)
    requires
        keys.no_duplicates(),
        first == second,
    ensures
        ({
            let a = BindingKey { layout, buffers: first };
            let b = BindingKey { layout, buffers: second };
            &&& handle_for(keys_after(keys, a), b) == handle_for(keys, a)
            &&& builds_for(keys_after(keys, a), b) == 0
            &&& keys_after(keys_after(keys, a), b) == keys_after(keys, a)
        }),
{
    lemma_same_key_same_handle(keys, BindingKey { layout, buffers: first });
}

/// Replacing one buffer of the list by a buffer with another identity yields a
/// different handle.
pub proof fn lemma_changed_buffer_other_handle(
    keys: Seq<BindingKey>,
    layout: u64,
    buffers: Seq<u64>,
    at: int,
    replacement: u64,
)
    requires
        keys.no_duplicates(),
        0 <= at < buffers.len(),
        replacement != buffers[at],
    ensures
        ({
            let a = BindingKey { layout, buffers };
            let b = BindingKey { layout, buffers: buffers.update(at, replacement) };
            &&& handle_for(keys_after(keys, a), b) != handle_for(keys, a)
            &&& builds_for(keys_after(keys, a), b) == builds_for(keys, b)
        }),
{
    let a = BindingKey { layout, buffers };
    let b = BindingKey { layout, buffers: buffers.update(at, replacement) };
    assert(b.buffers[at] != a.buffers[at]);
    lemma_other_key_other_handle(keys, a, b);
}

/// Every request keeps the earlier entries where they were: a handle, once
/// given out, names the same binding set for as long as the cache lives.
pub proof fn lemma_handles_are_stable(keys: Seq<BindingKey>, key: BindingKey)
    requires
        keys.no_duplicates(),
    ensures
        keys_after(keys, key).take(keys.len() as int) == keys,
        keys_after(keys, key).len() == keys.len() + builds_for(keys, key),
{
    lemma_request_keeps_order(keys, key);
}

} // verus!
