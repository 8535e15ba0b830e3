//! What a draw leaves in the recording of a pass.

use crate::binding_cache::BindingHandle;
use crate::images::Extent;
use crate::pipeline_cache::PipelineHandle;
use vstd::prelude::*;

verus! {

/// A rectangle of an image, in pixels: the part that a draw may touch.
#[derive(Clone, Copy, Debug, PartialEq, Eq, Structural)]
pub struct Region {
    pub x: u32,
    pub y: u32,
    pub width: u32,
    pub height: u32,
}

/// The region that covers a whole image of the given extent.
pub open spec fn whole_region(extent: Extent) -> Region {
    Region { x: 0, y: 0, width: extent.width, height: extent.height }
}

/// One recorded draw: the pipeline, the binding sets in order, the region
/// drawn to, and how much of the mesh is drawn.
#[derive(Clone, Debug, PartialEq, Eq)]
pub struct DrawCall {
    pub pipeline: PipelineHandle,
    pub sets: Vec<BindingHandle>,
    pub viewport: Region,
    pub vertex_count: u32,
    pub index_count: u32,
}

/// The value of a recorded draw.
#[verifier::ext_equal]
pub struct DrawCallView {
    pub pipeline: PipelineHandle,
    pub sets: Seq<BindingHandle>,
    pub viewport: Region,
    pub vertex_count: u32,
    pub index_count: u32,
}

impl View for DrawCall {
    type V = DrawCallView;

    open spec fn view(&self) -> DrawCallView {
        DrawCallView {
            pipeline: self.pipeline,
            sets: self.sets@,
            viewport: self.viewport,
            vertex_count: self.vertex_count,
            index_count: self.index_count,
        }
    }
}

/// The views of a list of recorded draws.
pub open spec fn call_views(calls: Seq<DrawCall>) -> Seq<DrawCallView> {
    calls.map_values(|call: DrawCall| call@)
}

} // verus!
