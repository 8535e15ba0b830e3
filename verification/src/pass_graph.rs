//! The pass graph: an ordered list of passes, the registry of the images
//! they produce and sample, and the recording of frames.

use crate::binding_cache::ResourceBindingCache;
use crate::build_once::{keys_after, lemma_position_is_handle};
use crate::config::{
    first_output, inputs_resolved, inputs_resolved_before, lemma_only_supplied_exist,
    lemma_origin_tells_source, lemma_partial_supplied, lemma_registry_grows, pass_produces,
    registry, registry_before, valid_config,
};
use crate::draw_call::{call_views, DrawCall};
use crate::draw_object::{bindings_after, recorded_call, DrawObject};
use crate::error::{explains_refusal, lemma_refusal_means_invalid, ConfigError};
use crate::frame::{record_views, Frame, PassRecord};
use crate::graph_laws::{
    lemma_advance_then_finish, lemma_frame_runs_every_pass_once, lemma_has_a_pass,
    lemma_outputs_in_order, lemma_pass_keeps_registry, lemma_resize_keeps_wf,
    lemma_tags_match_config,
};
use crate::graph_state::{initial_state, names_rebuilt, FrameState, GraphState};
use crate::images::{
    extent_under, fixed_views, info_of, slot_views, tags_of, Extent, FixedImage, ImageInfo,
    ImageSlot, ImageState,
};
use crate::pass::{names_of, pass_views, Pass, RenderPassDesc};
use crate::pipeline_cache::PipelineCache;
use crate::registry::{
    bind_outputs, copy_slots, enter_outputs, enter_supplied, find_slot, rebuild_for_surface,
    resolve_inputs,
};
use crate::scene::{
    all_known, is_first_unknown, lemma_draws_keep_pass, lemma_entries_keep_pass, object_views,
    scene_views, PassObjects, Session,
};
use crate::tags::is_first_position;
use vstd::prelude::*;

verus! {

/// The bookkeeping of the registry depends on the passes, the supplied
/// images and the tags of the registry alone: a step that keeps those keeps
/// it true.
proof fn lemma_slots_carry(now: PassGraph, earlier: PassGraph)
    requires
        earlier.slots_consistent(),
        now.starts == earlier.starts,
        now.inputs == earlier.inputs,
        now@.passes == earlier@.passes,
        now@.fixed == earlier@.fixed,
        tags_of(now@.images) == tags_of(earlier@.images),
    ensures
        now.slots_consistent(),
{
    assert(now@.images.len() == tags_of(now@.images).len());
    assert(earlier@.images.len() == tags_of(earlier@.images).len());
    assert(now@.passes.len() == now.passes@.len());
    assert(earlier@.passes.len() == earlier.passes@.len());
    assert(now@.images.len() == now.images@.len());
    assert(earlier@.images.len() == earlier.images@.len());
    assert forall|i: int| 0 <= i < now.inputs@.len() implies (#[trigger] now.inputs@[i])@
        == now@.input_slots(i) by {
        assert(now@.input_slots(i) =~= earlier@.input_slots(i));
    }
}

/// An ordered list of passes with the registry of their images, ready to
/// record frames.
#[derive(Debug)]
pub struct PassGraph {
    passes: Vec<Pass>,
    fixed: Vec<FixedImage>,
    images: Vec<ImageSlot>,
    starts: Vec<usize>,
    inputs: Vec<Vec<usize>>,
    output_tag: String,
    output_slot: usize,
    surface: Extent,
    recording: bool,
    current: usize,
    draws: Vec<DrawCall>,
    done: Vec<PassRecord>,
}

impl View for PassGraph {
    type V = GraphState;

    closed spec fn view(&self) -> GraphState {
        GraphState {
            passes: pass_views(self.passes@),
            fixed: fixed_views(self.fixed@),
            images: slot_views(self.images@),
            output: self.output_tag@,
            surface: self.surface,
            frame: if self.recording {
                FrameState::Recording {
                    pass: self.current as int,
                    draws: call_views(self.draws@),
                    done: record_views(self.done@),
                }
            } else {
                FrameState::Idle
            },
        }
    }
}

impl PassGraph {
    /// What the graph has worked out ahead of time about the registry agrees
    /// with its state: where the outputs of each pass start and which entries
    /// each pass samples.
    pub closed spec fn slots_consistent(&self) -> bool {
        &&& self.starts@.len() == self.passes@.len() + 1
        &&& forall|i: int|
            0 <= i < self.starts@.len() ==> #[trigger] self.starts@[i] == self@.first_output(i)
        &&& self.inputs@.len() == self.passes@.len()
        &&& forall|i: int|
            0 <= i < self.inputs@.len() ==> (#[trigger] self.inputs@[i])@ == self@.input_slots(i)
        &&& self.images@.len() == self.starts@[self.passes@.len() as int]
    }

    /// The graph's own bookkeeping agrees with its state: the positions it
    /// has worked out ahead of time, and the entry that is presented.
    pub closed spec fn consistent(&self) -> bool {
        &&& self.slots_consistent()
        &&& self.output_slot == self@.slot_of(self@.output)
    }

    /// The invariant of a graph: its state is well formed and its own
    /// bookkeeping agrees with it.
    pub open spec fn wf(&self) -> bool {
        self@.wf() && self.consistent()
    }

    /// Makes a graph from passes in the order in which they are to run, the
    /// images that the caller supplies, the tag of the image to present, and
    /// the extent of the presentation surface. Every fault of the
    /// configuration is found here: a tag produced twice, an input that
    /// neither the caller nor an earlier pass produces, an output that no
    /// pass produces.
    pub fn construct(
        passes: Vec<Pass>,
        fixed_images: Vec<FixedImage>,
        output_tag: String,
        surface: Extent,
    ) -> (built: Result<PassGraph, ConfigError>)
        ensures
            built is Ok <==> valid_config(
                pass_views(passes@),
                fixed_views(fixed_images@),
                output_tag@,
            ),
            match built {
                Ok(graph) => graph.wf() && graph@ == initial_state(
                    pass_views(passes@),
                    fixed_views(fixed_images@),
                    output_tag@,
                    surface,
                ),
                Err(error) => explains_refusal(
                    error,
                    pass_views(passes@),
                    fixed_views(fixed_images@),
                    output_tag@,
                ),
            },
    {
        let ghost views = pass_views(passes@);
        let ghost supplied = fixed_views(fixed_images@);
        let ghost whole = registry(views, supplied);
        let ghost tags = tags_of(whole);
        let mut images = match enter_supplied(&fixed_images, Ghost(views)) {
            Ok(images) => images,
            Err(error) => {
                proof {
                    lemma_refusal_means_invalid(error, views, supplied, output_tag@);
                }
                return Err(error);
            },
        };
        let mut starts: Vec<usize> = Vec::new();
        let mut i: usize = 0;
        while i < passes.len()
            invariant
                i <= passes.len(),
                views == pass_views(passes@),
                supplied == fixed_views(fixed_images@),
                slot_views(images@) == registry_before(views, supplied, i as int),
                tags_of(slot_views(images@)).no_duplicates(),
                starts@.len() == i,
                forall|p: int|
                    0 <= p < i ==> #[trigger] starts@[p] == first_output(views, supplied, p),
            decreases passes.len() - i,
        {
            starts.push(images.len());
            match enter_outputs(&passes[i], i, &mut images, Ghost(views), Ghost(supplied)) {
                Ok(_) => {},
                Err(error) => {
                    proof {
                        lemma_refusal_means_invalid(error, views, supplied, output_tag@);
                    }
                    return Err(error);
                },
            }
            i += 1;
        }
        starts.push(images.len());
        assert(slot_views(images@) == whole);
        let mut inputs: Vec<Vec<usize>> = Vec::new();
        let mut i: usize = 0;
        while i < passes.len()
            invariant
                i <= passes.len(),
                views == pass_views(passes@),
                supplied == fixed_views(fixed_images@),
                whole == registry(views, supplied),
                tags == tags_of(whole),
                slot_views(images@) == whole,
                tags.no_duplicates(),
                starts@.len() == passes.len() + 1,
                forall|p: int|
                    0 <= p <= passes.len() ==> #[trigger] starts@[p] == first_output(
                        views,
                        supplied,
                        p,
                    ),
                inputs@.len() == i,
                forall|p: int|
                    0 <= p < i ==> (#[trigger] inputs@[p])@.len() == views[p].needed.len(),
                forall|p: int, q: int|
                    0 <= p < i && 0 <= q < inputs@[p]@.len() ==> tags[(
                    #[trigger] inputs@[p]@[q]) as int] == views[p].needed[q] && inputs@[p]@[q]
                        < tags.len(),
                inputs_resolved_before(views, supplied, i as int, 0),
            decreases passes.len() - i,
        {
            proof {
                lemma_registry_grows(views, supplied, i as int, passes.len() as int);
            }
            match resolve_inputs(
                &passes[i],
                i,
                &images,
                starts[i],
                Ghost(views),
                Ghost(supplied),
            ) {
                Ok(row) => {
                    inputs.push(row);
                },
                Err(error) => {
                    proof {
                        lemma_refusal_means_invalid(error, views, supplied, output_tag@);
                    }
                    return Err(error);
                },
            }
            i += 1;
        }
        assert(inputs_resolved(views, supplied));
        proof {
            lemma_partial_supplied(views, supplied, 0);
        }
        match find_slot(&images, fixed_images.len(), images.len(), &output_tag) {
            None => {
                let error = ConfigError::UnknownOutput { tag: output_tag };
                proof {
                    let late = tags.skip(supplied.len() as int);
                    if late.contains(output_tag@) {
                        let k = late.index_of(output_tag@);
                        assert(late[k] == tags[k + supplied.len()]);
                    }
                    lemma_refusal_means_invalid(error, views, supplied, output_tag@);
                }
                Err(error)
            },
            Some(k) => {
                proof {
                    let late = tags.skip(supplied.len() as int);
                    assert(late[k - supplied.len()] == output_tag@);
                    assert(pass_produces(views, supplied, output_tag@));
                }
                let graph = PassGraph {
                    passes,
                    fixed: fixed_images,
                    images,
                    starts,
                    inputs,
                    output_tag,
                    output_slot: k,
                    surface,
                    recording: false,
                    current: 0,
                    draws: Vec::new(),
                    done: Vec::new(),
                };
                proof {
                    let state = graph@;
                    assert(state =~= initial_state(views, supplied, graph.output_tag@, surface));
                    assert forall|m: int| 0 <= m < state.images.len() implies (
                    #[trigger] state.images[m]).extent is Some ==> state.images[m].extent
                        == Some(extent_under(state.images[m].sizing, state.surface)) by {
                        lemma_only_supplied_exist(views, supplied, views.len() as int, m);
                    }
                    assert forall|m: int|
                        0 <= m < state.fixed.len() && m < state.images.len() implies (
                    #[trigger] state.images[m]).extent is Some by {
                        lemma_only_supplied_exist(views, supplied, views.len() as int, m);
                    }
                    assert(state.wf());
                    lemma_position_is_handle(tags, graph.output_tag@, k as int);
                    assert forall|p: int| 0 <= p < graph.inputs@.len() implies (
                    #[trigger] graph.inputs@[p])@ == state.input_slots(p) by {
                        let row = graph.inputs@[p]@;
                        assert forall|q: int| 0 <= q < row.len() implies row[q]
                            == state.input_slots(p)[q] by {
                            lemma_position_is_handle(tags, views[p].needed[q], row[q] as int);
                        }
                        assert(row =~= state.input_slots(p));
                    }
                    assert(graph.consistent());
                }
                Ok(graph)
            },
        }
    }

    /// Takes note that the presentation surface now has the extent
    /// `surface`. Every image that follows the surface and exists is torn
    /// down and rebuilt at that extent; the positions of those images are
    /// returned in registry order. Images of fixed size are left alone.
    pub fn resize(&mut self, surface: Extent) -> (rebuilt: Vec<usize>)
        requires
            old(self).wf(),
        ensures
            final(self).wf(),
            final(self)@ == old(self)@.resized(surface),
            names_rebuilt(old(self)@.images, rebuilt@),
    {
        let ghost before = self@;
        let rebuilt = rebuild_for_surface(&mut self.images, surface);
        self.surface = surface;
        proof {
            lemma_resize_keeps_wf(before, surface);
            assert(self@ =~= before.resized(surface));
            lemma_slots_carry(*self, *old(self));
        }
        rebuilt
    }

    /// Selects the image to present. The tag must be produced by some pass;
    /// a tag that is not is refused and the selection stays as it was.
    pub fn set_output_tag(&mut self, tag: String) -> (set: Result<(), ConfigError>)
        requires
            old(self).wf(),
        ensures
            final(self).wf(),
            set is Ok <==> pass_produces(old(self)@.passes, old(self)@.fixed, tag@),
            match set {
                Ok(_) => final(self)@ == old(self)@.with_output(tag@),
                Err(error) => {
                    &&& final(self)@ == old(self)@
                    &&& error matches ConfigError::UnknownOutput { tag: refused }
                    &&& refused@ == tag@
                },
            },
    {
        let ghost before = self@;
        let ghost tags = tags_of(before.images);
        let ghost late = tags.skip(before.fixed.len() as int);
        proof {
            lemma_tags_match_config(before);
            lemma_partial_supplied(before.passes, before.fixed, 0);
        }
        match find_slot(&self.images, self.fixed.len(), self.images.len(), &tag) {
            Some(k) => {
                proof {
                    assert(late[k - before.fixed.len()] == tag@);
                    lemma_position_is_handle(tags, tag@, k as int);
                }
                self.output_tag = tag;
                self.output_slot = k;
                proof {
                    assert(self@ =~= before.with_output(tag@));
                    lemma_slots_carry(*self, *old(self));
                }
                Ok(())
            },
            None => {
                proof {
                    if late.contains(tag@) {
                        let k = late.index_of(tag@);
                        assert(late[k] == tags[k + before.fixed.len()]);
                    }
                }
                Err(ConfigError::UnknownOutput { tag })
            },
        }
    }

    /// Begins a frame: the first pass becomes current and nothing is
    /// recorded yet. A frame that was being recorded is dropped.
    pub fn begin_frame(&mut self)
        requires
            old(self).wf(),
        ensures
            final(self).wf(),
            final(self)@ == old(self)@.begun(),
    {
        let ghost before = self@;
        proof {
            lemma_has_a_pass(before.passes, before.fixed, before.output);
        }
        self.recording = true;
        self.current = 0;
        self.draws = Vec::new();
        self.done = Vec::new();
        proof {
            assert(self@ =~= before.begun());
            lemma_slots_carry(*self, *old(self));
        }
    }

    /// Records one draw for the current pass. Outside a frame nothing is
    /// recorded and `false` is returned.
    pub fn add_draw(&mut self, call: DrawCall) -> (recorded: bool)
        requires
            old(self).wf(),
        ensures
            final(self).wf(),
            recorded == old(self)@.recording(),
            final(self)@ == old(self)@.with_draw(call@),
    {
        let ghost before = self@;
        if !self.recording {
            return false;
        }
        self.draws.push(call);
        proof {
            assert(call_views(self.draws@) =~= call_views(old(self).draws@).push(call@));
            assert(self@ =~= before.with_draw(call@));
            lemma_slots_carry(*self, *old(self));
        }
        true
    }

    /// Closes the current pass: creates its outputs where they do not exist,
    /// and files its recording with the draws made so far.
    fn close_current(&mut self)
        requires
            old(self).wf(),
            old(self).recording,
        ensures
            final(self).passes == old(self).passes,
            final(self).fixed == old(self).fixed,
            final(self).starts == old(self).starts,
            final(self).inputs == old(self).inputs,
            final(self).output_tag == old(self).output_tag,
            final(self).output_slot == old(self).output_slot,
            final(self).surface == old(self).surface,
            final(self).recording,
            final(self).current == old(self).current,
            final(self).draws@.len() == 0,
            slot_views(final(self).images@) == old(self)@.images_after_pass(
                old(self).current as int,
            ),
            record_views(final(self).done@) == record_views(old(self).done@).push(
                old(self)@.record(old(self).current as int, call_views(old(self).draws@)),
            ),
    {
        let ghost before = self@;
        let pass: usize = self.current;
        proof {
            assert(before.passes.len() == self.passes.len());
            lemma_outputs_in_order(before, pass as int);
            assert(self.starts@[pass as int] == before.first_output(pass as int));
            assert(self.starts@[pass + 1] == before.first_output(pass + 1));
        }
        let first: usize = self.starts[pass];
        let end: usize = self.starts[pass + 1];
        let outputs = bind_outputs(&mut self.images, first, end, self.surface);
        let inputs = copy_slots(&self.inputs[pass]);
        let mut draws: Vec<DrawCall> = Vec::new();
        core::mem::swap(&mut self.draws, &mut draws);
        let record = PassRecord { pass, outputs, inputs, draws };
        proof {
            assert(record@.outputs =~= before.output_bindings(pass as int));
            assert(record@.inputs == before.input_slots(pass as int));
            assert(record@ =~= before.record(pass as int, call_views(old(self).draws@)));
            assert(slot_views(self.images@) =~= before.images_after_pass(pass as int));
        }
        let ghost filed = record_views(self.done@);
        self.done.push(record);
        assert(record_views(self.done@) =~= filed.push(record@));
    }

    /// Closes the current pass and makes the next one current. On the last
    /// pass, and outside a frame, nothing changes and `false` is returned.
    pub fn advance(&mut self) -> (advanced: bool)
        requires
            old(self).wf(),
        ensures
            final(self).wf(),
            advanced == old(self)@.can_advance(),
            final(self)@ == if advanced {
                old(self)@.advanced()
            } else {
                old(self)@
            },
    {
        let ghost before = self@;
        assert(before.passes.len() == self.passes.len());
        if !self.recording || self.current + 1 >= self.passes.len() {
            return false;
        }
        self.close_current();
        self.current = self.current + 1;
        proof {
            let pass = old(self).current as int;
            lemma_pass_keeps_registry(before, pass);
            assert(self@ =~= before.advanced());
            assert(self@.wf());
            lemma_slots_carry(*self, *old(self));
        }
        true
    }

    /// Finishes the frame: the current pass is closed with the draws made so
    /// far, every later pass is run without draws, and the frame comes back
    /// with one recording per pass, in declared order, and the position of
    /// the image to present. Outside a frame there is nothing to finish.
    pub fn finish_frame(&mut self) -> (frame: Option<Frame>)
        requires
            old(self).wf(),
        ensures
            final(self).wf(),
            frame is Some <==> old(self)@.recording(),
            final(self)@ == old(self)@.finished(),
            frame matches Some(finished) ==> {
                &&& finished@ == old(self)@.finished_frame()
                &&& finished@.passes.len() == old(self)@.passes.len()
                &&& forall|k: int|
                    0 <= k < finished@.passes.len() ==> (#[trigger] finished@.passes[k]).pass == k
            },
    {
        let ghost before = self@;
        if !self.recording {
            return None;
        }
        proof {
            assert(before.passes.len() == self.passes.len());
            lemma_frame_runs_every_pass_once(before);
        }
        loop
            invariant
                self.wf(),
                self.recording,
                self@.finished_frame() == before.finished_frame(),
                self@.finished() == before.finished(),
            ensures
                !self@.can_advance(),
            decreases self.passes.len() - self.current,
        {
            let ghost here = self@;
            proof {
                if here.can_advance() {
                    lemma_advance_then_finish(here);
                }
            }
            if !self.advance() {
                break ;
            }
        }
        let ghost last = self@;
        let ghost closing = *self;
        self.close_current();
        let mut passes: Vec<PassRecord> = Vec::new();
        core::mem::swap(&mut self.done, &mut passes);
        self.recording = false;
        let frame = Frame { passes, present: self.output_slot };
        proof {
            let pass = last.frame->Recording_pass;
            lemma_pass_keeps_registry(last, pass);
            assert(pass + 1 == last.passes.len());
            assert(last.after_pass(pass).records_from(
                pass + 1,
                Seq::empty(),
                last.frame->Recording_done.push(last.record(pass, last.frame->Recording_draws)),
            ) == last.frame->Recording_done.push(last.record(pass, last.frame->Recording_draws)));
            assert(last.after_pass(pass).images_from(pass + 1) == last.images_after_pass(pass));
            assert(frame@ =~= last.finished_frame());
            assert(self@ =~= last.finished());
            lemma_slots_carry(*self, closing);
        }
        Some(frame)
    }

    /// Draws `object` into the current pass: the object resolves its
    /// pipeline and its resource sets through the caches, and the draw is
    /// recorded. Outside a frame nothing is drawn, no cache is asked, and
    /// `false` is returned.
    pub fn add_object(
        &mut self,
        object: &DrawObject,
        pipelines: &mut PipelineCache,
        bindings: &mut ResourceBindingCache,
    ) -> (recorded: bool)
        requires
            old(self).wf(),
            old(pipelines).wf(),
            old(bindings).wf(),
        ensures
            final(self).wf(),
            final(pipelines).wf(),
            final(bindings).wf(),
            recorded == old(self)@.recording(),
            recorded ==> {
                &&& final(self)@ == old(self)@.with_draw(
                    recorded_call(
                        object@,
                        old(pipelines).keys(),
                        old(bindings).keys(),
                        old(self)@.surface,
                    ),
                )
                &&& final(pipelines).keys() == keys_after(
                    old(pipelines).keys(),
                    object@.pipeline_spec,
                )
                &&& final(bindings).keys() == bindings_after(
                    old(bindings).keys(),
                    object@.sets,
                    object@.sets.len() as int,
                )
            },
            !recorded ==> {
                &&& final(self)@ == old(self)@
                &&& final(pipelines).keys() == old(pipelines).keys()
                &&& final(pipelines).hit_count() == old(pipelines).hit_count()
                &&& final(bindings).keys() == old(bindings).keys()
                &&& final(bindings).hit_count() == old(bindings).hit_count()
            },
    {
        if !self.recording {
            return false;
        }
        let call = object.draw(pipelines, bindings, self.surface);
        self.add_draw(call)
    }

    /// How many passes the graph has.
    pub fn pass_count(&self) -> (count: usize)
        ensures
            count == self@.passes.len(),
    {
        self.passes.len()
    }

    /// How many images the registry holds.
    pub fn image_count(&self) -> (count: usize)
        ensures
            count == self@.images.len(),
    {
        self.images.len()
    }

    /// The position of the first pass with this name. Draw objects are built
    /// for a pass found by name; a name that no pass has is a fault of the
    /// configuration.
    pub fn pass_index(&self, name: &String) -> (found: Result<usize, ConfigError>)
        ensures
            match found {
                Ok(i) => is_first_position(names_of(self@.passes), name@, i as int),
                Err(error) => {
                    &&& !names_of(self@.passes).contains(name@)
                    &&& error matches ConfigError::UnknownPass { name: unknown }
                    &&& unknown@ == name@
                },
            },
    {
        let ghost names = names_of(self@.passes);
        let mut i: usize = 0;
        while i < self.passes.len()
            invariant
                i <= self.passes.len(),
                names == names_of(self@.passes),
                names.len() == self.passes.len(),
                forall|j: int| 0 <= j < i ==> names[j] != name@,
            decreases self.passes.len() - i,
        {
            assert(names[i as int] == self.passes@[i as int].name@);
            if self.passes[i].name == *name {
                return Ok(i);
            }
            i += 1;
        }
        Err(ConfigError::UnknownPass { name: name.clone() })
    }

    /// What the pass at position `pass` renders into, if there is such a
    /// pass.
    pub fn target_of(&self, pass: usize) -> (target: Option<RenderPassDesc>)
        ensures
            target == if pass < self@.passes.len() {
                Some(self@.passes[pass as int].target)
            } else {
                None
            },
    {
        if pass < self.passes.len() {
            assert(self@.passes[pass as int] == self.passes@[pass as int]@);
            Some(self.passes[pass].target)
        } else {
            None
        }
    }

    /// The registry position of the image with this tag, if one is produced.
    pub fn slot_of(&self, tag: &String) -> (found: Option<usize>)
        requires
            self.wf(),
        ensures
            found is Some <==> tags_of(self@.images).contains(tag@),
            found matches Some(k) ==> k == self@.slot_of(tag@) && k < self@.images.len()
                && self@.images[k as int].tag == tag@,
    {
        let ghost tags = tags_of(self@.images);
        proof {
            lemma_tags_match_config(self@);
        }
        match find_slot(&self.images, 0, self.images.len(), tag) {
            Some(k) => {
                proof {
                    lemma_position_is_handle(tags, tag@, k as int);
                }
                Some(k)
            },
            None => {
                proof {
                    if tags.contains(tag@) {
                        let k = tags.index_of(tag@);
                        assert(tags[k] == tag@);
                    }
                }
                None
            },
        }
    }

    /// What the registry knows of the image at position `slot`, if there is
    /// one.
    pub fn image(&self, slot: usize) -> (info: Option<ImageInfo>)
        ensures
            info == if slot < self@.images.len() {
                Some(info_of(self@.images[slot as int]))
            } else {
                None
            },
    {
        if slot < self.images.len() {
            assert(self@.images[slot as int] == self.images@[slot as int]@);
            Some(
                ImageInfo {
                    format: self.images[slot].format,
                    sizing: self.images[slot].sizing,
                    origin: self.images[slot].origin,
                    extent: self.images[slot].extent,
                },
            )
        } else {
            None
        }
    }

    /// The tag of the image selected for presentation.
    pub fn output_tag(&self) -> (tag: &String)
        ensures
            tag@ == self@.output,
    {
        &self.output_tag
    }

    /// The registry position of the image selected for presentation.
    pub fn output_slot(&self) -> (slot: usize)
        requires
            self.wf(),
        ensures
            slot == self@.slot_of(self@.output),
            slot < self@.images.len(),
            self@.images[slot as int].tag == self@.output,
            self@.images[slot as int].origin is Pass,
    {
        proof {
            let state = self@;
            let tags = tags_of(state.images);
            lemma_tags_match_config(state);
            lemma_partial_supplied(state.passes, state.fixed, 0);
            let late = tags.skip(state.fixed.len() as int);
            let k = late.index_of(state.output);
            assert(0 <= k < late.len() && late[k] == state.output);
            assert(tags[k + state.fixed.len()] == state.output);
            lemma_position_is_handle(tags, state.output, k + state.fixed.len());
            lemma_only_supplied_exist(
                state.passes,
                state.fixed,
                state.passes.len() as int,
                k + state.fixed.len(),
            );
            lemma_origin_tells_source(
                state.passes,
                state.fixed,
                state.passes.len() as int,
                k + state.fixed.len(),
            );
            assert(state.images[k + state.fixed.len()] == (ImageState {
                extent: state.images[k + state.fixed.len()].extent,
                ..registry(state.passes, state.fixed)[k + state.fixed.len()]
            }));
        }
        self.output_slot
    }

    /// The extent of the presentation surface as the graph knows it.
    pub fn surface(&self) -> (extent: Extent)
        ensures
            extent == self@.surface,
    {
        self.surface
    }

    /// The position of the pass that is being recorded, if a frame is.
    pub fn current_pass(&self) -> (current: Option<usize>)
        ensures
            current is Some <==> self@.recording(),
            current matches Some(pass) ==> self@.frame->Recording_pass == pass,
    {
        if self.recording {
            Some(self.current)
        } else {
            None
        }
    }

    /// The first entry of the scene that names no pass, if there is one.
    fn first_unknown(&self, scene: &Vec<PassObjects>) -> (found: Option<usize>)
        ensures
            match found {
                Some(k) => is_first_unknown(names_of(self@.passes), scene_views(scene@), k as int),
                None => all_known(names_of(self@.passes), scene_views(scene@)),
            },
    {
        let ghost names = names_of(self@.passes);
        let ghost entries = scene_views(scene@);
        let mut k: usize = 0;
        while k < scene.len()
            invariant
                k <= scene.len(),
                names == names_of(self@.passes),
                entries == scene_views(scene@),
                forall|j: int| 0 <= j < k ==> names.contains(#[trigger] entries[j].pass),
            decreases scene.len() - k,
        {
            assert(entries[k as int].pass == scene@[k as int].pass@);
            if self.pass_index(&scene[k].pass).is_err() {
                return Some(k);
            }
            k += 1;
        }
        None
    }

    /// Draws the objects, in order, into the current pass.
    fn draw_objects(
        &mut self,
        objects: &Vec<DrawObject>,
        pipelines: &mut PipelineCache,
        bindings: &mut ResourceBindingCache,
    )
        requires
            old(self).wf(),
            old(self)@.recording(),
            old(pipelines).wf(),
            old(bindings).wf(),
        ensures
            final(self).wf(),
            final(self)@.recording(),
            final(pipelines).wf(),
            final(bindings).wf(),
            (Session {
                graph: final(self)@,
                pipelines: final(pipelines).keys(),
                bindings: final(bindings).keys(),
            }) == (Session {
                graph: old(self)@,
                pipelines: old(pipelines).keys(),
                bindings: old(bindings).keys(),
            }).drawn_all(object_views(objects@), objects@.len() as int),
    {
        let ghost start = Session {
            graph: self@,
            pipelines: pipelines.keys(),
            bindings: bindings.keys(),
        };
        let ghost views = object_views(objects@);
        let mut i: usize = 0;
        while i < objects.len()
            invariant
                i <= objects.len(),
                views == object_views(objects@),
                self.wf(),
                self@.recording(),
                pipelines.wf(),
                bindings.wf(),
                (Session {
                    graph: self@,
                    pipelines: pipelines.keys(),
                    bindings: bindings.keys(),
                }) == start.drawn_all(views, i as int),
            decreases objects.len() - i,
        {
            assert(views[i as int] == objects@[i as int]@);
            self.add_object(&objects[i], pipelines, bindings);
            i += 1;
        }
    }

    /// Draws into the current pass the objects that the scene registers
    /// under its name.
    fn draw_pass(
        &mut self,
        scene: &Vec<PassObjects>,
        pipelines: &mut PipelineCache,
        bindings: &mut ResourceBindingCache,
    )
        requires
            old(self).wf(),
            old(self)@.recording(),
            old(pipelines).wf(),
            old(bindings).wf(),
        ensures
            final(self).wf(),
            final(self)@.recording(),
            final(pipelines).wf(),
            final(bindings).wf(),
            (Session {
                graph: final(self)@,
                pipelines: final(pipelines).keys(),
                bindings: final(bindings).keys(),
            }) == (Session {
                graph: old(self)@,
                pipelines: old(pipelines).keys(),
                bindings: old(bindings).keys(),
            }).pass_drawn(scene_views(scene@), old(self)@.frame->Recording_pass),
    {
        let ghost start = Session {
            graph: self@,
            pipelines: pipelines.keys(),
            bindings: bindings.keys(),
        };
        let ghost entries = scene_views(scene@);
        let ghost pass = start.graph.frame->Recording_pass;
        let ghost name = start.graph.passes[pass].name;
        let mut k: usize = 0;
        while k < scene.len()
            invariant
                k <= scene.len(),
                entries == scene_views(scene@),
                self.wf(),
                self@.recording(),
                pipelines.wf(),
                bindings.wf(),
                self@.passes == start.graph.passes,
                self@.frame->Recording_pass == pass,
                name == start.graph.passes[pass].name,
                (Session {
                    graph: self@,
                    pipelines: pipelines.keys(),
                    bindings: bindings.keys(),
                }) == start.drawn_entries(entries, name, k as int),
            decreases scene.len() - k,
        {
            assert(entries[k as int] == scene@[k as int]@);
            assert(self@.passes[pass] == self.passes@[pass]@);
            let ghost here = Session {
                graph: self@,
                pipelines: pipelines.keys(),
                bindings: bindings.keys(),
            };
            if scene[k].pass == self.passes[self.current].name {
                self.draw_objects(&scene[k].objects, pipelines, bindings);
                proof {
                    lemma_draws_keep_pass(
                        here,
                        entries[k as int].objects,
                        entries[k as int].objects.len() as int,
                    );
                }
            }
            k += 1;
        }
    }

    /// Renders one frame of the scene. Every entry of the scene must name a
    /// pass: where one does not, nothing is recorded, no cache is asked, and
    /// the first such entry is reported. Else a frame is begun, each pass in
    /// declared order draws the objects registered under its name, in scene
    /// order, and the frame is finished.
    pub fn render(
        &mut self,
        scene: &Vec<PassObjects>,
        pipelines: &mut PipelineCache,
        bindings: &mut ResourceBindingCache,
    ) -> (rendered: Result<Frame, ConfigError>)
        requires
            old(self).wf(),
            old(pipelines).wf(),
            old(bindings).wf(),
        ensures
            final(self).wf(),
            final(pipelines).wf(),
            final(bindings).wf(),
            rendered is Ok <==> all_known(names_of(old(self)@.passes), scene_views(scene@)),
            match rendered {
                Ok(frame) => {
                    &&& frame@ == (Session {
                        graph: old(self)@,
                        pipelines: old(pipelines).keys(),
                        bindings: old(bindings).keys(),
                    }).rendered(scene_views(scene@)).graph.finished_frame()
                    &&& (Session {
                        graph: final(self)@,
                        pipelines: final(pipelines).keys(),
                        bindings: final(bindings).keys(),
                    }) == (Session {
                        graph: old(self)@,
                        pipelines: old(pipelines).keys(),
                        bindings: old(bindings).keys(),
                    }).rendered(scene_views(scene@)).finished()
                    &&& frame@.passes.len() == old(self)@.passes.len()
                    &&& forall|k: int|
                        0 <= k < frame@.passes.len() ==> (#[trigger] frame@.passes[k]).pass == k
                },
                Err(error) => {
                    &&& final(self)@ == old(self)@
                    &&& final(pipelines).keys() == old(pipelines).keys()
                    &&& final(pipelines).hit_count() == old(pipelines).hit_count()
                    &&& final(bindings).keys() == old(bindings).keys()
                    &&& final(bindings).hit_count() == old(bindings).hit_count()
                    &&& error matches ConfigError::UnknownPass { name }
                    &&& exists|k: int|
                        #[trigger] is_first_unknown(
                            names_of(old(self)@.passes),
                            scene_views(scene@),
                            k,
                        ) && name@ == scene_views(scene@)[k].pass
                },
            },
    {
        let ghost start = Session {
            graph: self@,
            pipelines: pipelines.keys(),
            bindings: bindings.keys(),
        };
        let ghost entries = scene_views(scene@);
        match self.first_unknown(scene) {
            Some(k) => {
                let error = ConfigError::UnknownPass { name: scene[k].pass.clone() };
                proof {
                    assert(entries[k as int].pass == scene@[k as int].pass@);
                    assert(is_first_unknown(names_of(start.graph.passes), entries, k as int));
                }
                return Err(error);
            },
            None => {},
        }
        self.begin_frame();
        let ghost total = start.graph.passes.len() as int;
        proof {
            lemma_has_a_pass(start.graph.passes, start.graph.fixed, start.graph.output);
        }
        loop
            invariant_except_break
                (Session {
                    graph: self@,
                    pipelines: pipelines.keys(),
                    bindings: bindings.keys(),
                }) == if self@.frame->Recording_pass == 0 {
                    Session { graph: start.graph.begun(), ..start }
                } else {
                    start.rendered_upto(entries, self@.frame->Recording_pass - 1).advanced()
                },
            invariant
                entries == scene_views(scene@),
                total == start.graph.passes.len(),
                self.wf(),
                self@.recording(),
                pipelines.wf(),
                bindings.wf(),
                self@.passes == start.graph.passes,
                0 <= self@.frame->Recording_pass < total,
            ensures
                self.wf(),
                self@.recording(),
                pipelines.wf(),
                bindings.wf(),
                (Session {
                    graph: self@,
                    pipelines: pipelines.keys(),
                    bindings: bindings.keys(),
                }) == start.rendered(entries),
            decreases total - self@.frame->Recording_pass,
        {
            let ghost here = Session {
                graph: self@,
                pipelines: pipelines.keys(),
                bindings: bindings.keys(),
            };
            let ghost pass = here.graph.frame->Recording_pass;
            self.draw_pass(scene, pipelines, bindings);
            proof {
                lemma_entries_keep_pass(
                    here,
                    entries,
                    here.graph.passes[pass].name,
                    entries.len() as int,
                );
                assert((Session {
                    graph: self@,
                    pipelines: pipelines.keys(),
                    bindings: bindings.keys(),
                }) == start.rendered_upto(entries, pass));
            }
            if !self.advance() {
                break ;
            }
        }
        let ghost drawn = self@;
        proof {
            assert(drawn.passes.len() == self.passes.len());
            lemma_frame_runs_every_pass_once(drawn);
        }
        let frame = self.finish_frame();
        Ok(frame.unwrap())
    }
}

} // verus!
