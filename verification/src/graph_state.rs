//! The state of a pass graph as a mathematical value, and the steps of a
//! frame as functions on it.

use crate::config::{first_output, registry, valid_config};
use crate::draw_call::DrawCallView;
use crate::frame::{FrameView, OutputBinding, PassRecordView};
use crate::images::{extent_under, tags_of, Extent, FixedImageView, ImageState, Sizing};
use crate::pass::PassView;
use crate::tags::Tag;
use vstd::prelude::*;

verus! {

/// Where a graph stands between frames or within one.
#[verifier::ext_equal]
pub enum FrameState {
    /// No frame is being recorded.
    Idle,
    /// Pass `pass` is being recorded: `draws` are its draws so far, `done`
    /// the recordings of the passes before it.
    Recording { pass: int, draws: Seq<DrawCallView>, done: Seq<PassRecordView> },
}

/// The state of a pass graph.
#[verifier::ext_equal]
pub struct GraphState {
    pub passes: Seq<PassView>,
    pub fixed: Seq<FixedImageView>,
    pub images: Seq<ImageState>,
    pub output: Tag,
    pub surface: Extent,
    pub frame: FrameState,
}

/// `image` as it is once created while the surface has the extent `surface`.
pub open spec fn created_image(image: ImageState, surface: Extent) -> ImageState {
    ImageState { extent: Some(extent_under(image.sizing, surface)), ..image }
}

/// `image` after the surface has changed to `surface`: rebuilt at the new size
/// if it exists and follows the surface, untouched otherwise.
pub open spec fn resized_image(image: ImageState, surface: Extent) -> ImageState {
    if image.sizing == Sizing::WindowRelative && image.extent is Some {
        ImageState { extent: Some(surface), ..image }
    } else {
        image
    }
}

/// Whether a resize rebuilds `image`.
pub open spec fn follows_surface(image: ImageState) -> bool {
    image.sizing == Sizing::WindowRelative && image.extent is Some
}

/// The state of a graph that has just been made: the registry as configured,
/// no frame begun.
pub open spec fn initial_state(
    passes: Seq<PassView>,
    fixed: Seq<FixedImageView>,
    output: Tag,
    surface: Extent,
) -> GraphState {
    GraphState {
        passes,
        fixed,
        images: registry(passes, fixed),
        output,
        surface,
        frame: FrameState::Idle,
    }
}

/// `rebuilt` lists, in registry order and once each, the positions of the
/// images that a resize rebuilds.
pub open spec fn names_rebuilt(images: Seq<ImageState>, rebuilt: Seq<usize>) -> bool {
    &&& forall|m: int|
        0 <= m < rebuilt.len() ==> (#[trigger] rebuilt[m]) < images.len() && follows_surface(
            images[rebuilt[m] as int],
        )
    &&& forall|m: int, n: int| 0 <= m < n < rebuilt.len() ==> rebuilt[m] < rebuilt[n]
    &&& forall|k: int|
        0 <= k < images.len() && follows_surface(#[trigger] images[k]) ==> rebuilt.contains(
            k as usize,
        )
}

impl GraphState {
    /// The registry position of the image with this tag.
    pub open spec fn slot_of(self, tag: Tag) -> int {
        tags_of(self.images).index_of(tag)
    }

    /// The registry position of the first output of pass `pass`.
    pub open spec fn first_output(self, pass: int) -> int {
        first_output(self.passes, self.fixed, pass)
    }

    /// The registry holds one entry per produced image, in registry order,
    /// and each entry differs from its declaration at most in whether the
    /// image exists.
    pub open spec fn images_match_config(self) -> bool {
        &&& self.images.len() == registry(self.passes, self.fixed).len()
        &&& forall|k: int|
            0 <= k < self.images.len() ==> #[trigger] self.images[k] == (ImageState {
                extent: self.images[k].extent,
                ..registry(self.passes, self.fixed)[k]
            })
    }

    /// Every image that exists has the size that its sizing rule gives it, and
    /// the supplied images exist.
    pub open spec fn extents_match_sizing(self) -> bool {
        &&& forall|k: int|
            0 <= k < self.images.len() && (#[trigger] self.images[k]).extent is Some
                ==> self.images[k].extent == Some(
                extent_under(self.images[k].sizing, self.surface),
            )
        &&& forall|k: int|
            0 <= k < self.fixed.len() && k < self.images.len() ==> (#[trigger] self.images[
                k
            ]).extent is Some
    }

    /// While a frame is recorded, the passes before the current one are done,
    /// each once and in declared order.
    pub open spec fn frame_in_order(self) -> bool {
        match self.frame {
            FrameState::Idle => true,
            FrameState::Recording { pass, draws, done } => {
                &&& 0 <= pass < self.passes.len()
                &&& done.len() == pass
                &&& forall|k: int| 0 <= k < done.len() ==> (#[trigger] done[k]).pass == k
            },
        }
    }

    /// The invariant of a graph: a valid configuration, a registry that
    /// matches it, sizes that follow the sizing rules, and a frame in order.
    pub open spec fn wf(self) -> bool {
        &&& valid_config(self.passes, self.fixed, self.output)
        &&& self.images_match_config()
        &&& self.extents_match_sizing()
        &&& self.frame_in_order()
    }

    /// Whether a frame is being recorded.
    pub open spec fn recording(self) -> bool {
        self.frame is Recording
    }

    /// The output images of pass `pass` as they are bound when it runs.
    pub open spec fn output_bindings(self, pass: int) -> Seq<OutputBinding> {
        Seq::new(
            self.passes[pass].created.len(),
            |j: int|
                OutputBinding {
                    slot: (self.first_output(pass) + j) as usize,
                    extent: extent_under(
                        self.images[self.first_output(pass) + j].sizing,
                        self.surface,
                    ),
                    fresh: self.images[self.first_output(pass) + j].extent is None,
                },
        )
    }

    /// The registry positions of the images that pass `pass` samples, in the
    /// order in which it names them.
    pub open spec fn input_slots(self, pass: int) -> Seq<usize> {
        Seq::new(
            self.passes[pass].needed.len(),
            |j: int| self.slot_of(self.passes[pass].needed[j]) as usize,
        )
    }

    /// The recording of pass `pass` with the given draws.
    pub open spec fn record(self, pass: int, draws: Seq<DrawCallView>) -> PassRecordView {
        PassRecordView {
            pass: pass as usize,
            outputs: self.output_bindings(pass),
            inputs: self.input_slots(pass),
            draws,
        }
    }

    /// The registry once pass `pass` has run: its outputs exist.
    pub open spec fn images_after_pass(self, pass: int) -> Seq<ImageState> {
        Seq::new(
            self.images.len(),
            |k: int|
                if self.first_output(pass) <= k < self.first_output(pass + 1) {
                    created_image(self.images[k], self.surface)
                } else {
                    self.images[k]
                },
        )
    }

    /// The state with pass `pass` run.
    pub open spec fn after_pass(self, pass: int) -> GraphState {
        GraphState { images: self.images_after_pass(pass), ..self }
    }

    /// The state with a frame begun: the first pass is current and nothing is
    /// recorded yet.
    pub open spec fn begun(self) -> GraphState {
        GraphState {
            frame: FrameState::Recording {
                pass: 0,
                draws: Seq::empty(),
                done: Seq::empty(),
            },
            ..self
        }
    }

    /// The state with one more draw recorded for the current pass.
    pub open spec fn with_draw(self, call: DrawCallView) -> GraphState {
        match self.frame {
            FrameState::Idle => self,
            FrameState::Recording { pass, draws, done } => GraphState {
                frame: FrameState::Recording { pass, draws: draws.push(call), done },
                ..self
            },
        }
    }

    /// Whether there is a pass to advance to.
    pub open spec fn can_advance(self) -> bool {
        self.frame matches FrameState::Recording { pass, .. } && pass + 1 < self.passes.len()
    }

    /// The state with the current pass closed and the next one current.
    pub open spec fn advanced(self) -> GraphState {
        match self.frame {
            FrameState::Idle => self,
            FrameState::Recording { pass, draws, done } => GraphState {
                images: self.images_after_pass(pass),
                frame: FrameState::Recording {
                    pass: pass + 1,
                    draws: Seq::empty(),
                    done: done.push(self.record(pass, draws)),
                },
                ..self
            },
        }
    }

    /// The recordings of a frame that is finished from pass `pass` on: that
    /// pass with `draws`, every later pass without draws, after `done`.
    pub open spec fn records_from(
        self,
        pass: int,
        draws: Seq<DrawCallView>,
        done: Seq<PassRecordView>,
    ) -> Seq<PassRecordView>
        decreases self.passes.len() - pass,
    {
        if pass >= self.passes.len() {
            done
        } else {
            self.after_pass(pass).records_from(
                pass + 1,
                Seq::empty(),
                done.push(self.record(pass, draws)),
            )
        }
    }

    /// The registry after a frame that is finished from pass `pass` on.
    pub open spec fn images_from(self, pass: int) -> Seq<ImageState>
        decreases self.passes.len() - pass,
    {
        if pass >= self.passes.len() {
            self.images
        } else {
            self.after_pass(pass).images_from(pass + 1)
        }
    }

    /// The frame that finishing yields in this state.
    pub open spec fn finished_frame(self) -> FrameView {
        match self.frame {
            FrameState::Idle => FrameView { passes: Seq::empty(), present: 0 },
            FrameState::Recording { pass, draws, done } => FrameView {
                passes: self.records_from(pass, draws, done),
                present: self.slot_of(self.output) as usize,
            },
        }
    }

    /// The state after finishing: idle, with every output of the remaining
    /// passes created.
    pub open spec fn finished(self) -> GraphState {
        match self.frame {
            FrameState::Idle => self,
            FrameState::Recording { pass, draws, done } => GraphState {
                images: self.images_from(pass),
                frame: FrameState::Idle,
                ..self
            },
        }
    }

    /// The state with another image selected for presentation.
    pub open spec fn with_output(self, tag: Tag) -> GraphState {
        GraphState { output: tag, ..self }
    }

    /// The state after the surface has changed to `surface`.
    pub open spec fn resized(self, surface: Extent) -> GraphState {
        GraphState {
            surface,
            images: Seq::new(self.images.len(), |k: int| resized_image(self.images[k], surface)),
            ..self
        }
    }
}

} // verus!
