//! Images as the graph sees them: a tag, a format, and a rule for their size.

use crate::tags::Tag;
use vstd::prelude::*;

verus! {

/// Width and height in pixels.
#[derive(Clone, Copy, Debug, PartialEq, Eq, Structural)]
pub struct Extent {
    pub width: u32,
    pub height: u32,
}

/// What an image stores per pixel.
#[derive(Clone, Copy, Debug, PartialEq, Eq, Structural)]
pub enum ImageFormat {
    Color,
    Depth,
}

/// How an image gets its size: fixed once and for all, or following the
/// presentation surface.
#[derive(Clone, Copy, Debug, PartialEq, Eq, Structural)]
pub enum Sizing {
    Fixed(Extent),
    WindowRelative,
}

/// Where an image comes from: handed in by the caller, or produced by the
/// pass at this position.
#[derive(Clone, Copy, Debug, PartialEq, Eq, Structural)]
pub enum Origin {
    Supplied,
    Pass(usize),
}

/// The size that an image with this sizing rule has while the surface has
/// the given extent.
pub open spec fn extent_under(sizing: Sizing, surface: Extent) -> Extent {
    match sizing {
        Sizing::Fixed(extent) => extent,
        Sizing::WindowRelative => surface,
    }
}

/// An image that a pass declares as its output.
#[derive(Clone, Debug, PartialEq, Eq)]
pub struct ImageDecl {
    pub tag: String,
    pub format: ImageFormat,
    pub sizing: Sizing,
}

/// The value of an image declaration.
pub struct ImageDeclView {
    pub tag: Tag,
    pub format: ImageFormat,
    pub sizing: Sizing,
}

impl View for ImageDecl {
    type V = ImageDeclView;

    open spec fn view(&self) -> ImageDeclView {
        ImageDeclView { tag: self.tag@, format: self.format, sizing: self.sizing }
    }
}

/// An image that the caller made and hands to the graph under a tag. Its size
/// never changes.
#[derive(Clone, Debug, PartialEq, Eq)]
pub struct FixedImage {
    pub tag: String,
    pub format: ImageFormat,
    pub extent: Extent,
}

/// The value of a caller-supplied image.
pub struct FixedImageView {
    pub tag: Tag,
    pub format: ImageFormat,
    pub extent: Extent,
}

impl View for FixedImage {
    type V = FixedImageView;

    open spec fn view(&self) -> FixedImageView {
        FixedImageView { tag: self.tag@, format: self.format, extent: self.extent }
    }
}

/// One entry of the tag registry. `extent` is `None` until the image has been
/// created.
#[derive(Clone, Debug, PartialEq, Eq)]
pub struct ImageSlot {
    pub tag: String,
    pub format: ImageFormat,
    pub sizing: Sizing,
    pub origin: Origin,
    pub extent: Option<Extent>,
}

/// The value of a registry entry.
pub struct ImageState {
    pub tag: Tag,
    pub format: ImageFormat,
    pub sizing: Sizing,
    pub origin: Origin,
    pub extent: Option<Extent>,
}

impl View for ImageSlot {
    type V = ImageState;

    open spec fn view(&self) -> ImageState {
        ImageState {
            tag: self.tag@,
            format: self.format,
            sizing: self.sizing,
            origin: self.origin,
            extent: self.extent,
        }
    }
}

/// What the registry knows of an image besides its tag.
#[derive(Clone, Copy, Debug, PartialEq, Eq, Structural)]
pub struct ImageInfo {
    pub format: ImageFormat,
    pub sizing: Sizing,
    pub origin: Origin,
    pub extent: Option<Extent>,
}

/// What the registry knows of `image` besides its tag.
pub open spec fn info_of(image: ImageState) -> ImageInfo {
    ImageInfo {
        format: image.format,
        sizing: image.sizing,
        origin: image.origin,
        extent: image.extent,
    }
}

/// The registry entry of a caller-supplied image: it exists from the start,
/// at its own size.
pub open spec fn supplied_state(image: FixedImageView) -> ImageState {
    ImageState {
        tag: image.tag,
        format: image.format,
        sizing: Sizing::Fixed(image.extent),
        origin: Origin::Supplied,
        extent: Some(image.extent),
    }
}

/// The registry entry of an image that pass `pass` declares: not created yet.
pub open spec fn declared_state(decl: ImageDeclView, pass: int) -> ImageState {
    ImageState {
        tag: decl.tag,
        format: decl.format,
        sizing: decl.sizing,
        origin: Origin::Pass(pass as usize),
        extent: None,
    }
}

/// The views of a list of declarations.
pub open spec fn decl_views(decls: Seq<ImageDecl>) -> Seq<ImageDeclView> {
    decls.map_values(|decl: ImageDecl| decl@)
}

/// The views of a list of caller-supplied images.
pub open spec fn fixed_views(images: Seq<FixedImage>) -> Seq<FixedImageView> {
    images.map_values(|image: FixedImage| image@)
}

/// The views of a list of registry entries.
pub open spec fn slot_views(slots: Seq<ImageSlot>) -> Seq<ImageState> {
    slots.map_values(|slot: ImageSlot| slot@)
}

/// The tags of a list of registry entries, in order.
pub open spec fn tags_of(images: Seq<ImageState>) -> Seq<Tag> {
    images.map_values(|image: ImageState| image.tag)
}

} // verus!
