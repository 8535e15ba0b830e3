//! Draw objects: a mesh, a pipeline specification and an ordered collection
//! of resource sets, with one draw operation for all of them, however many
//! sets each one binds.

use crate::binding_cache::{BindingHandle, BindingKey, ResourceBindingCache};
use crate::build_once::{handle_for, keys_after};
use crate::draw_call::{whole_region, DrawCall, DrawCallView, Region};
use crate::images::Extent;
use crate::pass::RenderPassDesc;
use crate::pipeline_cache::{
    PipelineCache, PipelineHandle, PipelineKey, PipelineSpec, Topology, VertexAttribute,
};
use vstd::prelude::*;

verus! {

/// A reference to mesh data: the buffers that hold it, by identity, and how
/// many vertices and indices a draw of it covers.
#[derive(Clone, Copy, Debug, PartialEq, Eq, Structural)]
pub struct Mesh {
    pub vertex_buffer: u64,
    pub index_buffer: u64,
    pub vertex_count: u32,
    pub index_count: u32,
}

/// One set of resources of a draw object.
#[derive(Clone, Debug, PartialEq, Eq)]
pub enum ResourceSet {
    /// Buffers, by identity and in binding order, to be bound under a
    /// layout. The binding set for them is looked up when the object is
    /// drawn.
    Buffers { layout: u64, buffers: Vec<u64> },
    /// A binding set that was built before and is carried as it is.
    Bound(BindingHandle),
}

/// The value of a resource set.
#[verifier::ext_equal]
pub enum ResourceSetView {
    Buffers { layout: u64, buffers: Seq<u64> },
    Bound(BindingHandle),
}

impl View for ResourceSet {
    type V = ResourceSetView;

    open spec fn view(&self) -> ResourceSetView {
        match self {
            ResourceSet::Buffers { layout, buffers } => ResourceSetView::Buffers {
                layout: *layout,
                buffers: buffers@,
            },
            ResourceSet::Bound(handle) => ResourceSetView::Bound(*handle),
        }
    }
}

/// Set `set` of `sets` is a set of buffers with a position `at`.
pub open spec fn holds_buffer_at(sets: Seq<ResourceSetView>, set: int, at: int) -> bool {
    &&& 0 <= set < sets.len()
    &&& sets[set] is Buffers
    &&& 0 <= at < sets[set]->Buffers_buffers.len()
}

/// The views of a list of resource sets.
pub open spec fn set_views(sets: Seq<ResourceSet>) -> Seq<ResourceSetView> {
    sets.map_values(|set: ResourceSet| set@)
}

/// The binding cache after the first `n` of `sets` have been resolved in
/// order: each set of buffers is a request, a set that is carried is none.
pub open spec fn bindings_after(
    keys: Seq<BindingKey>,
    sets: Seq<ResourceSetView>,
    n: int,
) -> Seq<BindingKey>
    decreases n,
{
    if n <= 0 {
        keys
    } else {
        match sets[n - 1] {
            ResourceSetView::Buffers { layout, buffers } => keys_after(
                bindings_after(keys, sets, n - 1),
                BindingKey { layout, buffers },
            ),
            ResourceSetView::Bound(_) => bindings_after(keys, sets, n - 1),
        }
    }
}

/// The handle that set `i` of `sets` is bound with, when the sets are
/// resolved in order against a cache that holds `keys`.
pub open spec fn handle_of_set(
    keys: Seq<BindingKey>,
    sets: Seq<ResourceSetView>,
    i: int,
) -> BindingHandle {
    match sets[i] {
        ResourceSetView::Buffers { layout, buffers } => BindingHandle {
            index: handle_for(
                bindings_after(keys, sets, i),
                BindingKey { layout, buffers },
            ) as usize,
        },
        ResourceSetView::Bound(handle) => handle,
    }
}

/// What an object is built from.
#[derive(Clone, Debug, PartialEq, Eq)]
pub struct DrawPrototype {
    pub vs_path: String,
    pub fs_path: String,
    pub vertex_layout: Vec<VertexAttribute>,
    pub mesh: Mesh,
    pub topology: Topology,
    pub read_depth: bool,
    pub write_depth: bool,
    pub sets: Vec<ResourceSet>,
    pub viewport: Option<Region>,
}

/// A mesh with the pipeline it is drawn with, the resource sets it binds,
/// and, where it does not draw to the whole surface, the region it draws to.
#[derive(Clone, Debug, PartialEq, Eq)]
pub struct DrawObject {
    pub pipeline_spec: PipelineSpec,
    pub mesh: Mesh,
    pub sets: Vec<ResourceSet>,
    pub viewport: Option<Region>,
}

/// The value of a draw object.
#[verifier::ext_equal]
pub struct DrawObjectView {
    pub pipeline_spec: PipelineKey,
    pub mesh: Mesh,
    pub sets: Seq<ResourceSetView>,
    pub viewport: Option<Region>,
}

impl View for DrawObject {
    type V = DrawObjectView;

    open spec fn view(&self) -> DrawObjectView {
        DrawObjectView {
            pipeline_spec: self.pipeline_spec@,
            mesh: self.mesh,
            sets: set_views(self.sets@),
            viewport: self.viewport,
        }
    }
}

impl DrawPrototype {
    /// The object that this prototype becomes when bound to the pass
    /// identity `target`.
    pub open spec fn bound_to(&self, target: u64) -> DrawObjectView {
        DrawObjectView {
            pipeline_spec: PipelineKey {
                vs_path: self.vs_path@,
                fs_path: self.fs_path@,
                vertex_layout: self.vertex_layout@,
                topology: self.topology,
                read_depth: self.read_depth,
                write_depth: self.write_depth,
                target_pass: target,
            },
            mesh: self.mesh,
            sets: set_views(self.sets@),
            viewport: self.viewport,
        }
    }

    /// Binds the prototype to a pass without touching any cache: the
    /// pipeline is resolved when the object is first drawn.
    pub fn build_deferred(self, target: &RenderPassDesc) -> (object: DrawObject)
        ensures
            object@ == self.bound_to(target.id),
    {
        DrawObject {
            pipeline_spec: PipelineSpec {
                vs_path: self.vs_path,
                fs_path: self.fs_path,
                vertex_layout: self.vertex_layout,
                topology: self.topology,
                read_depth: self.read_depth,
                write_depth: self.write_depth,
                target_pass: target.id,
            },
            mesh: self.mesh,
            sets: self.sets,
            viewport: self.viewport,
        }
    }

    /// Binds the prototype to a pass and resolves its pipeline at once, so
    /// that a pipeline that has to be built is built before the first frame.
    pub fn build(self, target: &RenderPassDesc, pipelines: &mut PipelineCache) -> (built: (
        DrawObject,
        bool,
    ))
        requires
            old(pipelines).wf(),
        ensures
            final(pipelines).wf(),
            built.0@ == self.bound_to(target.id),
            final(pipelines).keys() == keys_after(old(pipelines).keys(), built.0@.pipeline_spec),
            built.1 == !old(pipelines).keys().contains(built.0@.pipeline_spec),
    {
        let object = self.build_deferred(target);
        let found = pipelines.get_or_build(&object.pipeline_spec);
        (object, found.built)
    }
}

/// The region that a draw of `object` covers while the surface has the
/// extent `surface`: its own region if it has one, else the whole surface.
pub open spec fn viewport_of(object: DrawObjectView, surface: Extent) -> Region {
    match object.viewport {
        Some(region) => region,
        None => whole_region(surface),
    }
}

/// The draw that `object` records against caches that hold `pipelines` and
/// `bindings`, while the surface has the extent `surface`.
pub open spec fn recorded_call(
    object: DrawObjectView,
    pipelines: Seq<PipelineKey>,
    bindings: Seq<BindingKey>,
    surface: Extent,
) -> DrawCallView {
    DrawCallView {
        pipeline: PipelineHandle { index: handle_for(pipelines, object.pipeline_spec) as usize },
        sets: Seq::new(object.sets.len(), |i: int| handle_of_set(bindings, object.sets, i)),
        viewport: viewport_of(object, surface),
        vertex_count: object.mesh.vertex_count,
        index_count: object.mesh.index_count,
    }
}

impl DrawObject {
    /// Records the draw of this object: resolves its pipeline through the
    /// pipeline cache, resolves its resource sets in order through the
    /// binding cache or carries them as they are, applies its own region or
    /// else the whole surface, and draws the extents of its mesh.
    pub fn draw(
        &self,
        pipelines: &mut PipelineCache,
        bindings: &mut ResourceBindingCache,
        surface: Extent,
    ) -> (call: DrawCall)
        requires
            old(pipelines).wf(),
            old(bindings).wf(),
        ensures
            final(pipelines).wf(),
            final(bindings).wf(),
            final(pipelines).keys() == keys_after(old(pipelines).keys(), self@.pipeline_spec),
            final(bindings).keys() == bindings_after(
                old(bindings).keys(),
                self@.sets,
                self@.sets.len() as int,
            ),
            call@ == recorded_call(self@, old(pipelines).keys(), old(bindings).keys(), surface),
    {
        let ghost cached = bindings.keys();
        let ghost views = set_views(self.sets@);
        let pipeline = pipelines.get_or_build(&self.pipeline_spec).handle;
        let mut sets: Vec<BindingHandle> = Vec::new();
        let mut i: usize = 0;
        while i < self.sets.len()
            invariant
                i <= self.sets.len(),
                views == set_views(self.sets@),
                bindings.wf(),
                bindings.keys() == bindings_after(cached, views, i as int),
                sets@.len() == i,
                forall|k: int|
                    0 <= k < i ==> #[trigger] sets@[k] == handle_of_set(cached, views, k),
            decreases self.sets.len() - i,
        {
            assert(views[i as int] == self.sets@[i as int]@);
            let handle = match &self.sets[i] {
                ResourceSet::Buffers { layout, buffers } => bindings.get_or_build(
                    *layout,
                    buffers,
                ).handle,
                ResourceSet::Bound(handle) => *handle,
            };
            sets.push(handle);
            i += 1;
        }
        let viewport = match self.viewport {
            Some(region) => region,
            None => Region { x: 0, y: 0, width: surface.width, height: surface.height },
        };
        let call = DrawCall {
            pipeline,
            sets,
            viewport,
            vertex_count: self.mesh.vertex_count,
            index_count: self.mesh.index_count,
        };
        assert(call@ =~= recorded_call(self@, old(pipelines).keys(), cached, surface));
        call
    }

    /// Puts another buffer at position `at` of resource set `set`: the
    /// buffer was allocated anew, so the next draw binds another binding set.
    /// Returns whether there is such a position in a set of buffers.
    pub fn replace_buffer(&mut self, set: usize, at: usize, buffer: u64) -> (replaced: bool)
        ensures
            replaced == holds_buffer_at(old(self)@.sets, set as int, at as int),
            final(self)@.pipeline_spec == old(self)@.pipeline_spec,
            final(self)@.mesh == old(self)@.mesh,
            final(self)@.viewport == old(self)@.viewport,
            final(self)@.sets == if replaced {
                old(self)@.sets.update(
                    set as int,
                    ResourceSetView::Buffers {
                        layout: old(self)@.sets[set as int]->Buffers_layout,
                        buffers: old(self)@.sets[set as int]->Buffers_buffers.update(
                            at as int,
                            buffer,
                        ),
                    },
                )
            } else {
                old(self)@.sets
            },
    {
        if set >= self.sets.len() {
            return false;
        }
        let ghost before = set_views(self.sets@);
        assert(before[set as int] == self.sets@[set as int]@);
        let ghost prior = self.sets@;
        let replaced = match &mut self.sets[set] {
            ResourceSet::Buffers { layout, buffers } => {
                if at < buffers.len() {
                    buffers.set(at, buffer);
                    true
                } else {
                    false
                }
            },
            ResourceSet::Bound(_) => false,
        };
        proof {
            assert forall|k: int|
                0 <= k < self.sets@.len() && k != set implies #[trigger] set_views(self.sets@)[k]
                == before[k] by {
                assert(self.sets@[k] == prior[k]);
            }
            if replaced {
                assert(set_views(self.sets@) =~= before.update(
                    set as int,
                    ResourceSetView::Buffers {
                        layout: before[set as int]->Buffers_layout,
                        buffers: before[set as int]->Buffers_buffers.update(at as int, buffer),
                    },
                ));
            } else {
                assert(set_views(self.sets@) =~= before);
            }
        }
        replaced
    }
}

} // verus!
