//! A scene: draw objects registered for passes by name, and what rendering
//! it records.
//!
//! A frame is rendered pass by pass, in declared order. Each pass draws the
//! objects that the scene registers under its name, in the order in which
//! the scene lists them, and every draw goes through the two caches.

use crate::binding_cache::BindingKey;
use crate::build_once::keys_after;
use crate::draw_object::{bindings_after, recorded_call, DrawObject, DrawObjectView};
use crate::graph_laws::lemma_records_depend_on_registry;
use crate::graph_state::{FrameState, GraphState};
use crate::pipeline_cache::PipelineKey;
use vstd::prelude::*;

verus! {

/// The objects registered for the passes of one name.
#[derive(Clone, Debug, PartialEq, Eq)]
pub struct PassObjects {
    pub pass: String,
    pub objects: Vec<DrawObject>,
}

/// The value of a scene entry.
#[verifier::ext_equal]
pub struct PassObjectsView {
    pub pass: Seq<char>,
    pub objects: Seq<DrawObjectView>,
}

/// The views of a list of draw objects.
pub open spec fn object_views(objects: Seq<DrawObject>) -> Seq<DrawObjectView> {
    objects.map_values(|object: DrawObject| object@)
}

impl View for PassObjects {
    type V = PassObjectsView;

    open spec fn view(&self) -> PassObjectsView {
        PassObjectsView { pass: self.pass@, objects: object_views(self.objects@) }
    }
}

/// The views of a scene.
pub open spec fn scene_views(scene: Seq<PassObjects>) -> Seq<PassObjectsView> {
    scene.map_values(|entry: PassObjects| entry@)
}

/// Every entry of the scene names a pass.
pub open spec fn all_known(names: Seq<Seq<char>>, scene: Seq<PassObjectsView>) -> bool {
    forall|k: int| 0 <= k < scene.len() ==> names.contains(#[trigger] scene[k].pass)
}

/// Entry `k` is the first entry of the scene that names no pass.
pub open spec fn is_first_unknown(
    names: Seq<Seq<char>>,
    scene: Seq<PassObjectsView>,
    k: int,
) -> bool {
    &&& 0 <= k < scene.len()
    &&& !names.contains(scene[k].pass)
    &&& forall|j: int| 0 <= j < k ==> names.contains(#[trigger] scene[j].pass)
}

/// A graph together with the two caches that its draws go through.
#[verifier::ext_equal]
pub struct Session {
    pub graph: GraphState,
    pub pipelines: Seq<PipelineKey>,
    pub bindings: Seq<BindingKey>,
}

impl Session {
    /// The session after `object` has been drawn into the current pass.
    pub open spec fn drawn(self, object: DrawObjectView) -> Session {
        Session {
            graph: self.graph.with_draw(
                recorded_call(object, self.pipelines, self.bindings, self.graph.surface),
            ),
            pipelines: keys_after(self.pipelines, object.pipeline_spec),
            bindings: bindings_after(self.bindings, object.sets, object.sets.len() as int),
        }
    }

    /// The session after the first `n` of `objects` have been drawn, in
    /// order, into the current pass.
    pub open spec fn drawn_all(self, objects: Seq<DrawObjectView>, n: int) -> Session
        decreases n,
    {
        if n <= 0 {
            self
        } else {
            self.drawn_all(objects, n - 1).drawn(objects[n - 1])
        }
    }

    /// The session after the objects that the first `n` entries of `scene`
    /// register under `name` have been drawn, in order, into the current
    /// pass.
    pub open spec fn drawn_entries(
        self,
        scene: Seq<PassObjectsView>,
        name: Seq<char>,
        n: int,
    ) -> Session
        decreases n,
    {
        if n <= 0 {
            self
        } else if scene[n - 1].pass == name {
            self.drawn_entries(scene, name, n - 1).drawn_all(
                scene[n - 1].objects,
                scene[n - 1].objects.len() as int,
            )
        } else {
            self.drawn_entries(scene, name, n - 1)
        }
    }

    /// The session after pass `pass`, which is current and has no draws yet,
    /// has drawn the objects registered under its name.
    pub open spec fn pass_drawn(self, scene: Seq<PassObjectsView>, pass: int) -> Session {
        self.drawn_entries(scene, self.graph.passes[pass].name, scene.len() as int)
    }

    /// The session with the current pass closed and the next one current.
    pub open spec fn advanced(self) -> Session {
        Session { graph: self.graph.advanced(), ..self }
    }

    /// The session with another image selected for presentation.
    pub open spec fn with_output(self, tag: Seq<char>) -> Session {
        Session { graph: self.graph.with_output(tag), ..self }
    }

    /// The session with the frame finished.
    pub open spec fn finished(self) -> Session {
        Session { graph: self.graph.finished(), ..self }
    }

    /// The session after the passes up to `pass` have drawn their objects,
    /// starting from a frame just begun: every pass before `pass` is closed,
    /// and `pass` is left current.
    pub open spec fn rendered_upto(self, scene: Seq<PassObjectsView>, pass: int) -> Session
        decreases pass,
    {
        if pass <= 0 {
            Session { graph: self.graph.begun(), ..self }.pass_drawn(scene, 0)
        } else {
            self.rendered_upto(scene, pass - 1).advanced().pass_drawn(scene, pass)
        }
    }

    /// The session after every pass has drawn its objects, starting from a
    /// frame just begun. The last pass is left current, to be closed when
    /// the frame is finished.
    pub open spec fn rendered(self, scene: Seq<PassObjectsView>) -> Session {
        self.rendered_upto(scene, self.graph.passes.len() - 1)
    }
}

/// Draws change what is recorded for the current pass and what the caches
/// hold, and nothing else: the passes, the registry, the surface, the
/// selected output and the pass that is current stay as they are.
pub proof fn lemma_draws_keep_pass(session: Session, objects: Seq<DrawObjectView>, n: int)
    requires
        session.graph.recording(),
    ensures
        same_but_draws(session.drawn_all(objects, n).graph, session.graph),
    decreases n,
{
    if n > 0 {
        lemma_draws_keep_pass(session, objects, n - 1);
    }
}

/// The same as `lemma_draws_keep_pass`, for the objects that a scene
/// registers under one name.
pub proof fn lemma_entries_keep_pass(
    session: Session,
    scene: Seq<PassObjectsView>,
    name: Seq<char>,
    n: int,
)
    requires
        session.graph.recording(),
    ensures
        same_but_draws(session.drawn_entries(scene, name, n).graph, session.graph),
    decreases n,
{
    if n > 0 {
        lemma_entries_keep_pass(session, scene, name, n - 1);
        if scene[n - 1].pass == name {
            lemma_draws_keep_pass(
                session.drawn_entries(scene, name, n - 1),
                scene[n - 1].objects,
                scene[n - 1].objects.len() as int,
            );
        }
    }
}

/// `later` differs from `earlier` at most in the draws recorded for the
/// current pass.
pub open spec fn same_but_draws(later: GraphState, earlier: GraphState) -> bool {
    &&& later.passes == earlier.passes
    &&& later.fixed == earlier.fixed
    &&& later.images == earlier.images
    &&& later.output == earlier.output
    &&& later.surface == earlier.surface
    &&& later.frame is Recording
    &&& earlier.frame is Recording
    &&& later.frame->Recording_pass == earlier.frame->Recording_pass
    &&& later.frame->Recording_done == earlier.frame->Recording_done
}

/// Drawing does not look at the selected output.
proof fn lemma_draws_ignore_output(
    session: Session,
    tag: Seq<char>,
    objects: Seq<DrawObjectView>,
    n: int,
)
    ensures
        session.with_output(tag).drawn_all(objects, n) == session.drawn_all(
            objects,
            n,
        ).with_output(tag),
    decreases n,
{
    if n > 0 {
        lemma_draws_ignore_output(session, tag, objects, n - 1);
        let before = session.drawn_all(objects, n - 1);
        assert(before.with_output(tag).drawn(objects[n - 1]) =~= before.drawn(
            objects[n - 1],
        ).with_output(tag));
    }
}

/// Drawing the objects registered under a name does not look at the
/// selected output.
proof fn lemma_entries_ignore_output(
    session: Session,
    tag: Seq<char>,
    scene: Seq<PassObjectsView>,
    name: Seq<char>,
    n: int,
)
    ensures
        session.with_output(tag).drawn_entries(scene, name, n) == session.drawn_entries(
            scene,
            name,
            n,
        ).with_output(tag),
    decreases n,
{
    if n > 0 {
        lemma_entries_ignore_output(session, tag, scene, name, n - 1);
        if scene[n - 1].pass == name {
            lemma_draws_ignore_output(
                session.drawn_entries(scene, name, n - 1),
                tag,
                scene[n - 1].objects,
                scene[n - 1].objects.len() as int,
            );
        }
    }
}

/// Closing a pass does not look at the selected output.
proof fn lemma_advance_ignores_output(session: Session, tag: Seq<char>)
    ensures
        session.with_output(tag).advanced() == session.advanced().with_output(tag),
{
    let graph = session.graph;
    let other = graph.with_output(tag);
    match graph.frame {
        FrameState::Idle => {},
        FrameState::Recording { pass, draws, done } => {
            assert(other.output_bindings(pass) =~= graph.output_bindings(pass));
            assert(other.input_slots(pass) =~= graph.input_slots(pass));
            assert(other.images_after_pass(pass) =~= graph.images_after_pass(pass));
        },
    }
    assert(other.advanced() =~= graph.advanced().with_output(tag));
}

/// Rendering up to a pass does not look at the selected output.
proof fn lemma_passes_ignore_output(
    session: Session,
    tag: Seq<char>,
    scene: Seq<PassObjectsView>,
    pass: int,
)
    ensures
        session.with_output(tag).rendered_upto(scene, pass) == session.rendered_upto(
            scene,
            pass,
        ).with_output(tag),
    decreases pass,
{
    if pass <= 0 {
        let begun = Session { graph: session.graph.begun(), ..session };
        assert(Session { graph: session.with_output(tag).graph.begun(), ..session.with_output(tag) }
            =~= begun.with_output(tag));
        lemma_entries_ignore_output(
            begun,
            tag,
            scene,
            begun.graph.passes[0].name,
            scene.len() as int,
        );
    } else {
        lemma_passes_ignore_output(session, tag, scene, pass - 1);
        let before = session.rendered_upto(scene, pass - 1);
        lemma_advance_ignores_output(before, tag);
        lemma_entries_ignore_output(
            before.advanced(),
            tag,
            scene,
            before.advanced().graph.passes[pass].name,
            scene.len() as int,
        );
    }
}

/// The selected output decides what a rendered frame presents and nothing
/// else: with another tag selected, the same scene leaves the same recording
/// for every pass, the same registry and the same caches.
pub proof fn lemma_render_ignores_output(
    session: Session,
    tag: Seq<char>,
    scene: Seq<PassObjectsView>,
)
    ensures
        session.with_output(tag).rendered(scene) == session.rendered(scene).with_output(tag),
        session.with_output(tag).rendered(scene).graph.finished_frame().passes
            == session.rendered(scene).graph.finished_frame().passes,
        session.with_output(tag).rendered(scene).finished() == session.rendered(
            scene,
        ).finished().with_output(tag),
{
    let last = session.graph.passes.len() - 1;
    lemma_passes_ignore_output(session, tag, scene, last);
    let end = session.rendered(scene);
    let other = end.with_output(tag);
    match end.graph.frame {
        FrameState::Idle => {},
        FrameState::Recording { pass, draws, done } => {
            lemma_records_depend_on_registry(other.graph, end.graph, pass, draws, done);
        },
    }
    assert(other.finished() =~= end.finished().with_output(tag));
}

} // verus!
