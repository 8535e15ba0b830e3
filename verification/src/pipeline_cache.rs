//! Pipeline specifications and the cache that builds each distinct one once.
//!
//! A pipeline object is expensive to build and immutable once built. The cache
//! keeps one entry per distinct specification, compared field by field, and
//! hands out the position of the entry as its handle. Building the GPU object
//! for a fresh handle is left to the caller, who is told when one is due.

use crate::build_once::{
    builds_for, bumped, handle_for, keys_after, lemma_handle_names_key,
    lemma_other_key_other_handle, lemma_position_is_handle, lemma_push_absent_keeps_distinct,
    lemma_request_keeps_order, lemma_same_key_same_handle,
};
use vstd::prelude::*;

verus! {

/// How the vertices of a mesh are assembled into primitives.
#[derive(Clone, Copy, Debug, PartialEq, Eq, Structural)]
pub enum Topology {
    PointList,
    LineList,
    LineStrip,
    TriangleList,
    TriangleStrip,
    TriangleFan,
}

/// One attribute of a vertex: where it starts and how many components it has.
#[derive(Clone, Copy, Debug, PartialEq, Eq, Structural)]
pub struct VertexAttribute {
    pub offset: u32,
    pub components: u32,
}

/// The full description of a pipeline configuration.
#[derive(Clone, Debug, PartialEq, Eq)]
pub struct PipelineSpec {
    pub vs_path: String,
    pub fs_path: String,
    pub vertex_layout: Vec<VertexAttribute>,
    pub topology: Topology,
    pub read_depth: bool,
    pub write_depth: bool,
    pub target_pass: u64,
}

/// The value of a specification: what two specifications must agree on to
/// share one pipeline.
#[verifier::ext_equal]
pub struct PipelineKey {
    pub vs_path: Seq<char>,
    pub fs_path: Seq<char>,
    pub vertex_layout: Seq<VertexAttribute>,
    pub topology: Topology,
    pub read_depth: bool,
    pub write_depth: bool,
    pub target_pass: u64,
}

impl View for PipelineSpec {
    type V = PipelineKey;

    open spec fn view(&self) -> PipelineKey {
        PipelineKey {
            vs_path: self.vs_path@,
            fs_path: self.fs_path@,
            vertex_layout: self.vertex_layout@,
            topology: self.topology,
            read_depth: self.read_depth,
            write_depth: self.write_depth,
            target_pass: self.target_pass,
        }
    }
}

fn same_layout(a: &Vec<VertexAttribute>, b: &Vec<VertexAttribute>) -> (same: bool)
    ensures
        same == (a@ == b@),
{
    if a.len() != b.len() {
        return false;
    }
    let mut i: usize = 0;
    while i < a.len()
        invariant
            i <= a.len(),
            a.len() == b.len(),
            forall|j: int| 0 <= j < i ==> a@[j] == b@[j],
        decreases a.len() - i,
    {
        if a[i] != b[i] {
            return false;
        }
        i += 1;
    }
    assert(a@ =~= b@);
    true
}

fn copy_layout(layout: &Vec<VertexAttribute>) -> (copy: Vec<VertexAttribute>)
    ensures
        copy@ == layout@,
{
    let mut copy: Vec<VertexAttribute> = Vec::new();
    let mut i: usize = 0;
    while i < layout.len()
        invariant
            i <= layout.len(),
            copy@ == layout@.take(i as int),
        decreases layout.len() - i,
    {
        copy.push(layout[i]);
        assert(layout@.take(i as int).push(layout@[i as int]) =~= layout@.take(i + 1));
        i += 1;
    }
    assert(layout@.take(layout.len() as int) =~= layout@);
    copy
}

impl PipelineSpec {
    /// Structural equality: every field agrees.
    pub fn same_as(&self, other: &PipelineSpec) -> (same: bool)
        ensures
            same == (self@ == other@),
    {
        let same = self.vs_path == other.vs_path && self.fs_path == other.fs_path && same_layout(
            &self.vertex_layout,
            &other.vertex_layout,
        ) && self.topology == other.topology && self.read_depth == other.read_depth
            && self.write_depth == other.write_depth && self.target_pass == other.target_pass;
        assert(same ==> self@ =~= other@);
        same
    }

    /// A second specification with the same value.
    pub fn duplicate(&self) -> (copy: PipelineSpec)
        ensures
            copy@ == self@,
    {
        PipelineSpec {
            vs_path: self.vs_path.clone(),
            fs_path: self.fs_path.clone(),
            vertex_layout: copy_layout(&self.vertex_layout),
            topology: self.topology,
            read_depth: self.read_depth,
            write_depth: self.write_depth,
            target_pass: self.target_pass,
        }
    }
}

/// Names one cached pipeline: its position in build order.
#[derive(Clone, Copy, Debug, PartialEq, Eq, Structural)]
pub struct PipelineHandle {
    pub index: usize,
}

/// The answer to a request: the handle, and whether it is new, in which case
/// the pipeline object behind it has yet to be built.
#[derive(Clone, Copy, Debug, PartialEq, Eq, Structural)]
pub struct PipelineLookup {
    pub handle: PipelineHandle,
    pub built: bool,
}

/// Pipelines built so far, one per distinct specification requested.
#[derive(Debug)]
pub struct PipelineCache {
    entries: Vec<PipelineSpec>,
    hits: u64,
}

impl PipelineCache {
    /// No specification is cached twice.
    pub open spec fn wf(&self) -> bool {
        self.keys().no_duplicates()
    }

    /// The cached specifications, in build order.
    pub closed spec fn keys(&self) -> Seq<PipelineKey> {
        self.entries@.map_values(|spec: PipelineSpec| spec@)
    }

    /// Requests answered from the cache so far.
    pub closed spec fn hit_count(&self) -> u64 {
        self.hits
    }

    /// An empty cache.
    pub fn new() -> (cache: PipelineCache)
        ensures
            cache.wf(),
            cache.keys() == Seq::<PipelineKey>::empty(),
            cache.hit_count() == 0,
    {
        let cache = PipelineCache { entries: Vec::new(), hits: 0 };
        assert(cache.keys() =~= Seq::<PipelineKey>::empty());
        cache
    }

    fn find(&self, spec: &PipelineSpec) -> (found: Option<usize>)
        ensures
            match found {
                Some(k) => k < self.keys().len() && self.keys()[k as int] == spec@,
                None => !self.keys().contains(spec@),
            },
    {
        let mut i: usize = 0;
        while i < self.entries.len()
            invariant
                i <= self.entries.len(),
                forall|j: int| 0 <= j < i ==> self.keys()[j] != spec@,
            decreases self.entries.len() - i,
        {
            if self.entries[i].same_as(spec) {
                return Some(i);
            }
            i += 1;
        }
        None
    }

    /// Returns the handle of the pipeline for `spec`. A specification seen
    /// before gets the handle it got then and nothing is built; a new one is
    /// stored under the next handle and reported as `built`.
    pub fn get_or_build(&mut self, spec: &PipelineSpec) -> (found: PipelineLookup)
        requires
            old(self).wf(),
        ensures
            final(self).wf(),
            final(self).keys() == keys_after(old(self).keys(), spec@),
            found.handle.index == handle_for(old(self).keys(), spec@),
            found.built == !old(self).keys().contains(spec@),
            final(self).hit_count() == if found.built {
                old(self).hit_count()
            } else {
                bumped(old(self).hit_count())
            },
    {
        match self.find(spec) {
            Some(k) => {
                if self.hits < u64::MAX {
                    self.hits = self.hits + 1;
                }
                proof {
                    lemma_position_is_handle(self.keys(), spec@, k as int);
                }
                PipelineLookup { handle: PipelineHandle { index: k }, built: false }
            },
            None => {
                let index = self.entries.len();
                let ghost before = self.keys();
                self.entries.push(spec.duplicate());
                proof {
                    assert(self.keys() =~= before.push(spec@));
                    lemma_push_absent_keeps_distinct(before, spec@);
                }
                PipelineLookup { handle: PipelineHandle { index }, built: true }
            },
        }
    }

    /// Whether a pipeline for `spec` has been built.
    pub fn contains(&self, spec: &PipelineSpec) -> (present: bool)
        ensures
            present == self.keys().contains(spec@),
    {
        self.find(spec).is_some()
    }

    /// How many pipelines have been built: one per cache miss.
    pub fn misses(&self) -> (count: usize)
        ensures
            count == self.keys().len(),
    {
        self.entries.len()
    }

    /// How many requests were answered without a build.
    pub fn hits(&self) -> (count: u64)
        ensures
            count == self.hit_count(),
    {
        self.hits
    }
}

/// Two requests with equal specifications get the same handle, and between
/// them perform exactly one build when the specification was new, and none
/// when it was cached.
pub proof fn lemma_equal_specs_build_once(keys: Seq<PipelineKey>, a: PipelineKey, b: PipelineKey)
    requires
        keys.no_duplicates(),
        a == b,
    ensures
        handle_for(keys_after(keys, a), b) == handle_for(keys, a),
        builds_for(keys_after(keys, a), b) == 0,
        builds_for(keys, a) + builds_for(keys_after(keys, a), b) == if keys.contains(a) {
            0int
        } else {
            1int
        },
        keys_after(keys_after(keys, a), b).len() == keys.len() + builds_for(keys, a),
{
    lemma_same_key_same_handle(keys, a);
    lemma_request_keeps_order(keys, a);
}

/// Two requests with specifications that differ get two distinct handles, and
/// perform two builds when both were new.
pub proof fn lemma_distinct_specs_build_twice(
    keys: Seq<PipelineKey>,
    a: PipelineKey,
    b: PipelineKey,
)
    requires
        keys.no_duplicates(),
        a != b,
    ensures
        handle_for(keys_after(keys, a), b) != handle_for(keys, a),
        builds_for(keys_after(keys, a), b) == builds_for(keys, b),
        !keys.contains(a) && !keys.contains(b) ==> builds_for(keys, a) + builds_for(
            keys_after(keys, a),
            b,
        ) == 2,
        keys_after(keys_after(keys, a), b).len() == keys.len() + builds_for(keys, a)
            + builds_for(keys, b),
{
    lemma_other_key_other_handle(keys, a, b);
    lemma_request_keeps_order(keys, a);
    lemma_request_keeps_order(keys_after(keys, a), b);
}

/// An entry, once built, is never invalidated: every request leaves the
/// earlier entries as they were and where they were, so a specification
/// that was superseded is found again under its old handle.
pub proof fn lemma_entries_are_never_invalidated(
    keys: Seq<PipelineKey>,
    requested: PipelineKey,
    cached: PipelineKey,
)
    requires
        keys.no_duplicates(),
        keys.contains(cached),
    ensures
        keys_after(keys, requested).take(keys.len() as int) == keys,
        keys_after(keys, requested).contains(cached),
        handle_for(keys_after(keys, requested), cached) == handle_for(keys, cached),
{
    lemma_request_keeps_order(keys, requested);
    lemma_handle_names_key(keys, cached);
    let k = handle_for(keys, cached);
    let later = keys_after(keys, requested);
    assert(later.take(keys.len() as int)[k] == later[k]);
    lemma_position_is_handle(later, cached, k);
}

/// Specifications that differ in any one field have different values, so each
/// is a cache entry of its own.
pub proof fn lemma_field_change_is_new_key(a: PipelineKey, b: PipelineKey)
    requires
        a.vs_path != b.vs_path || a.fs_path != b.fs_path || a.vertex_layout != b.vertex_layout
            || a.topology != b.topology || a.read_depth != b.read_depth || a.write_depth
            != b.write_depth || a.target_pass != b.target_pass,
    ensures
        a != b,
{
}

} // verus!
