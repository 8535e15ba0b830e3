//! What holds of every well-formed graph state, and of every step on it.

use crate::build_once::lemma_position_is_handle;
use crate::config::{
    input_resolved, lemma_partial_outputs, lemma_registry_grows, lemma_tags_of_take,
    pass_produces, produced_tags, registry, valid_config,
};
use crate::draw_call::DrawCallView;
use crate::frame::PassRecordView;
use crate::graph_state::{follows_surface, FrameState, GraphState};
use crate::images::{extent_under, tags_of, Extent, FixedImageView, ImageState};
use crate::pass::PassView;
use crate::tags::Tag;
use vstd::prelude::*;

verus! {

/// The tags of the registry entries are the produced tags of the
/// configuration, whatever has been created since.
pub proof fn lemma_tags_match_config(state: GraphState)
    requires
        state.images_match_config(),
    ensures
        tags_of(state.images) == produced_tags(state.passes, state.fixed),
{
    assert(tags_of(state.images) =~= produced_tags(state.passes, state.fixed));
}

/// A valid configuration has at least one pass: the one that produces the
/// presented image.
pub proof fn lemma_has_a_pass(passes: Seq<PassView>, fixed: Seq<FixedImageView>, output: Tag)
    requires
        valid_config(passes, fixed, output),
    ensures
        passes.len() > 0,
{
    let late = produced_tags(passes, fixed).skip(fixed.len() as int);
    let k = late.index_of(output);
    assert(0 <= k < late.len());
}

/// The outputs of each pass lie within the registry, after the supplied
/// images and after the outputs of every earlier pass.
pub proof fn lemma_outputs_in_order(state: GraphState, pass: int)
    requires
        state.images_match_config(),
        0 <= pass < state.passes.len(),
    ensures
        state.fixed.len() <= state.first_output(pass),
        state.first_output(pass) + state.passes[pass].created.len() == state.first_output(
            pass + 1,
        ),
        state.first_output(pass + 1) <= state.images.len(),
{
    lemma_partial_outputs(state.passes, state.fixed, pass, 0);
    lemma_registry_grows(state.passes, state.fixed, 0, pass);
}

/// Running a pass creates its outputs and changes nothing else: the registry
/// still matches the configuration, sizes still follow the sizing rules, and
/// every tag stays where it is.
pub proof fn lemma_pass_keeps_registry(state: GraphState, pass: int)
    requires
        state.images_match_config(),
        state.extents_match_sizing(),
        0 <= pass < state.passes.len(),
    ensures
        state.after_pass(pass).images_match_config(),
        state.after_pass(pass).extents_match_sizing(),
        tags_of(state.after_pass(pass).images) == tags_of(state.images),
        forall|k: int|
            state.first_output(pass) <= k < state.first_output(pass + 1) ==> (
            #[trigger] state.after_pass(pass).images[k]).extent is Some,
{
    let after = state.after_pass(pass);
    lemma_outputs_in_order(state, pass);
    assert(tags_of(after.images) =~= tags_of(state.images));
    assert forall|k: int| 0 <= k < after.images.len() implies #[trigger] after.images[k] == (
    ImageState { extent: after.images[k].extent, ..registry(after.passes, after.fixed)[k] }) by {
        assert(state.images[k] == (ImageState {
            extent: state.images[k].extent,
            ..registry(state.passes, state.fixed)[k]
        }));
    }
    assert forall|k: int|
        0 <= k < after.images.len() && (#[trigger] after.images[k]).extent is Some implies
        after.images[k].extent == Some(extent_under(after.images[k].sizing, after.surface)) by {
        if state.first_output(pass) <= k < state.first_output(pass + 1) {
        } else {
            assert(state.images[k].extent is Some);
        }
    }
    assert forall|k: int| 0 <= k < after.fixed.len() && k < after.images.len() implies (
    #[trigger] after.images[k]).extent is Some by {
        assert(state.images[k].extent is Some);
    }
}

/// A resize keeps the graph well formed and every tag where it is.
pub proof fn lemma_resize_keeps_wf(state: GraphState, surface: Extent)
    requires
        state.wf(),
    ensures
        state.resized(surface).wf(),
        tags_of(state.resized(surface).images) == tags_of(state.images),
{
    let after = state.resized(surface);
    assert(tags_of(after.images) =~= tags_of(state.images));
    assert forall|k: int| 0 <= k < after.images.len() implies #[trigger] after.images[k] == (
    ImageState { extent: after.images[k].extent, ..registry(after.passes, after.fixed)[k] }) by {
        assert(state.images[k] == (ImageState {
            extent: state.images[k].extent,
            ..registry(state.passes, state.fixed)[k]
        }));
    }
    assert forall|k: int|
        0 <= k < after.images.len() && (#[trigger] after.images[k]).extent is Some implies
        after.images[k].extent == Some(extent_under(after.images[k].sizing, after.surface)) by {
        assert(state.images[k].extent is Some);
    }
    assert forall|k: int| 0 <= k < after.fixed.len() && k < after.images.len() implies (
    #[trigger] after.images[k]).extent is Some by {
        assert(state.images[k].extent is Some);
    }
}

/// On a resize an image that follows the surface and exists is rebuilt at
/// the new extent, whatever that is; an image of fixed size is left exactly
/// as it was, and so is one that has not been created yet.
pub proof fn lemma_resize_spares_fixed(state: GraphState, surface: Extent, k: int)
    requires
        state.wf(),
        0 <= k < state.images.len(),
    ensures
        state.resized(surface).images.len() == state.images.len(),
        follows_surface(state.images[k]) ==> state.resized(surface).images[k].extent == Some(
            surface,
        ),
        state.images[k].sizing is Fixed ==> state.resized(surface).images[k] == state.images[k],
        state.images[k].extent is None ==> state.resized(surface).images[k] == state.images[k],
        state.resized(surface).images[k].sizing == state.images[k].sizing,
        state.resized(surface).images[k].tag == state.images[k].tag,
{
}

/// The recordings and the registry of a frame depend on the passes, the
/// registry and the surface alone: not on the image selected for
/// presentation, and not on what was recorded before.
pub proof fn lemma_records_depend_on_registry(
    a: GraphState,
    b: GraphState,
    pass: int,
    draws: Seq<DrawCallView>,
    done: Seq<PassRecordView>,
)
    requires
        a.passes == b.passes,
        a.fixed == b.fixed,
        a.images == b.images,
        a.surface == b.surface,
    ensures
        a.records_from(pass, draws, done) == b.records_from(pass, draws, done),
        a.images_from(pass) == b.images_from(pass),
    decreases a.passes.len() - pass,
{
    if pass >= a.passes.len() {
    } else {
        assert(a.output_bindings(pass) =~= b.output_bindings(pass));
        assert(a.input_slots(pass) =~= b.input_slots(pass));
        assert(a.record(pass, draws) == b.record(pass, draws));
        assert(a.images_after_pass(pass) =~= b.images_after_pass(pass));
        lemma_records_depend_on_registry(
            a.after_pass(pass),
            b.after_pass(pass),
            pass + 1,
            Seq::empty(),
            done.push(a.record(pass, draws)),
        );
    }
}

/// Advancing and then finishing gives the frame, and leaves the registry,
/// that finishing at once would have: a pass left without further draws is
/// recorded as it stands.
pub proof fn lemma_advance_then_finish(state: GraphState)
    requires
        state.can_advance(),
    ensures
        state.advanced().finished_frame() == state.finished_frame(),
        state.advanced().finished() == state.finished(),
{
    match state.frame {
        FrameState::Idle => {},
        FrameState::Recording { pass, draws, done } => {
            let next = done.push(state.record(pass, draws));
            lemma_records_depend_on_registry(
                state.advanced(),
                state.after_pass(pass),
                pass + 1,
                Seq::empty(),
                next,
            );
            assert(tags_of(state.advanced().images) =~= tags_of(state.images));
            assert(state.advanced().finished() =~= state.finished());
        },
    }
}

/// A frame finished from pass `pass` on records that pass and every later
/// one, once each and in declared order, after what was done before.
pub proof fn lemma_records_in_order(
    state: GraphState,
    pass: int,
    draws: Seq<DrawCallView>,
    done: Seq<PassRecordView>,
)
    requires
        0 <= pass <= state.passes.len(),
        done.len() == pass,
        forall|k: int| 0 <= k < done.len() ==> (#[trigger] done[k]).pass == k,
        state.passes.len() <= usize::MAX,
    ensures
        state.records_from(pass, draws, done).len() == state.passes.len(),
        forall|k: int|
            0 <= k < state.passes.len() ==> (#[trigger] state.records_from(
                pass,
                draws,
                done,
            )[k]).pass == k,
        forall|k: int|
            0 <= k < pass ==> #[trigger] state.records_from(pass, draws, done)[k] == done[k],
        pass < state.passes.len() ==> state.records_from(pass, draws, done)[pass].draws
            == draws,
    decreases state.passes.len() - pass,
{
    if pass >= state.passes.len() {
    } else {
        let next = done.push(state.record(pass, draws));
        lemma_records_in_order(state.after_pass(pass), pass + 1, Seq::empty(), next);
        assert(next[pass] == state.record(pass, draws));
    }
}

/// Every pass of a finished frame is recorded once, in declared order.
pub proof fn lemma_frame_runs_every_pass_once(state: GraphState)
    requires
        state.wf(),
        state.recording(),
        state.passes.len() <= usize::MAX,
    ensures
        state.finished_frame().passes.len() == state.passes.len(),
        forall|k: int|
            0 <= k < state.passes.len() ==> (#[trigger] state.finished_frame().passes[k]).pass
                == k,
{
    match state.frame {
        FrameState::Idle => {},
        FrameState::Recording { pass, draws, done } => {
            lemma_records_in_order(state, pass, draws, done);
        },
    }
}

/// Every image that a pass samples stands in the registry before the
/// outputs of that pass, under the tag that the pass names: it is supplied
/// by the caller or produced by an earlier pass.
pub proof fn lemma_inputs_come_from_earlier(state: GraphState, pass: int, j: int)
    requires
        state.wf(),
        0 <= pass < state.passes.len(),
        0 <= j < state.passes[pass].needed.len(),
    ensures
        0 <= state.slot_of(state.passes[pass].needed[j]) < state.first_output(pass),
        state.first_output(pass) <= state.images.len(),
        state.images[state.slot_of(state.passes[pass].needed[j])].tag
            == state.passes[pass].needed[j],
{
    let tag = state.passes[pass].needed[j];
    let tags = tags_of(state.images);
    lemma_tags_match_config(state);
    lemma_outputs_in_order(state, pass);
    lemma_registry_grows(state.passes, state.fixed, pass, state.passes.len() as int);
    lemma_tags_of_take(registry(state.passes, state.fixed), state.first_output(pass));
    assert(input_resolved(state.passes, state.fixed, pass, j));
    let early = tags.take(state.first_output(pass));
    let k = early.index_of(tag);
    assert(0 <= k < early.len() && early[k] == tag);
    assert(tags[k] == tag);
    lemma_position_is_handle(tags, tag, k);
}

/// The selected output is a selector and nothing more: with another
/// produced tag selected, every step of a frame records what it would have
/// recorded, the registry changes as it would have changed, and only the
/// image that is presented differs.
pub proof fn lemma_output_only_selects(state: GraphState, tag: Tag, call: DrawCallView)
    requires
        state.wf(),
        pass_produces(state.passes, state.fixed, tag),
    ensures
        state.with_output(tag).wf(),
        state.with_output(tag).begun() == state.begun().with_output(tag),
        state.with_output(tag).with_draw(call) == state.with_draw(call).with_output(tag),
        state.with_output(tag).can_advance() == state.can_advance(),
        state.with_output(tag).advanced() == state.advanced().with_output(tag),
        state.with_output(tag).finished() == state.finished().with_output(tag),
        state.with_output(tag).finished_frame().passes == state.finished_frame().passes,
        state.recording() ==> state.with_output(tag).finished_frame().present == state.slot_of(
            tag,
        ) as usize,
{
    let other = state.with_output(tag);
    match state.frame {
        FrameState::Idle => {},
        FrameState::Recording { pass, draws, done } => {
            lemma_records_depend_on_registry(other, state, pass, draws, done);
            assert(other.output_bindings(pass) =~= state.output_bindings(pass));
            assert(other.input_slots(pass) =~= state.input_slots(pass));
            assert(other.images_after_pass(pass) =~= state.images_after_pass(pass));
            assert(other.advanced() =~= state.advanced().with_output(tag));
            assert(other.finished() =~= state.finished().with_output(tag));
        },
    }
}

} // verus!
