//! A pass: one stage of the render graph.

use crate::images::{decl_views, ImageDecl, ImageDeclView};
use crate::tags::Tag;
use vstd::prelude::*;

verus! {

/// The attachments that a pass renders into, and the identity under which
/// pipelines are built for it.
#[derive(Clone, Copy, Debug, PartialEq, Eq, Structural)]
pub struct RenderPassDesc {
    pub id: u64,
    pub color_attachments: u32,
    pub has_depth: bool,
}

/// One stage of the graph: the images it produces, the images of earlier
/// stages that it samples, and what it renders into.
#[derive(Clone, Debug, PartialEq, Eq)]
pub struct Pass {
    pub name: String,
    pub created: Vec<ImageDecl>,
    pub needed_tags: Vec<String>,
    pub target: RenderPassDesc,
}

/// The value of a pass.
pub struct PassView {
    pub name: Seq<char>,
    pub created: Seq<ImageDeclView>,
    pub needed: Seq<Tag>,
    pub target: RenderPassDesc,
}

impl View for Pass {
    type V = PassView;

    open spec fn view(&self) -> PassView {
        PassView {
            name: self.name@,
            created: decl_views(self.created@),
            needed: self.needed_tags.deep_view(),
            target: self.target,
        }
    }
}

/// The names of a list of passes, in order.
pub open spec fn names_of(passes: Seq<PassView>) -> Seq<Seq<char>> {
    passes.map_values(|pass: PassView| pass.name)
}

/// The views of a list of passes.
pub open spec fn pass_views(passes: Seq<Pass>) -> Seq<PassView> {
    passes.map_values(|pass: Pass| pass@)
}

} // verus!
