//! What a rendered frame holds: for every pass, the draws of the objects
//! registered under its name, in scene order, and nothing else.

use crate::draw_call::DrawCallView;
use crate::draw_object::{recorded_call, viewport_of, DrawObjectView};
use crate::frame::PassRecordView;
use crate::graph_laws::lemma_records_in_order;
use crate::graph_state::{FrameState, GraphState};
use crate::scene::{PassObjectsView, Session};
use vstd::prelude::*;

verus! {

/// The objects that the first `n` entries of `scene` register under `name`,
/// in scene order.
pub open spec fn objects_for(
    scene: Seq<PassObjectsView>,
    name: Seq<char>,
    n: int,
) -> Seq<DrawObjectView>
    decreases n,
{
    if n <= 0 {
        Seq::empty()
    } else if scene[n - 1].pass == name {
        objects_for(scene, name, n - 1) + scene[n - 1].objects
    } else {
        objects_for(scene, name, n - 1)
    }
}

/// The draws that the first `n` of `objects` record, in order, each against
/// the caches as the draws before it left them.
pub open spec fn calls_of(session: Session, objects: Seq<DrawObjectView>, n: int) -> Seq<
    DrawCallView,
>
    decreases n,
{
    if n <= 0 {
        Seq::empty()
    } else {
        calls_of(session, objects, n - 1).push(
            recorded_call(
                objects[n - 1],
                session.drawn_all(objects, n - 1).pipelines,
                session.drawn_all(objects, n - 1).bindings,
                session.graph.surface,
            ),
        )
    }
}

/// The session at the moment at which pass `pass` becomes current while
/// `scene` is rendered.
pub open spec fn pass_start(session: Session, scene: Seq<PassObjectsView>, pass: int) -> Session {
    if pass <= 0 {
        Session { graph: session.graph.begun(), ..session }
    } else {
        session.rendered_upto(scene, pass - 1).advanced()
    }
}

/// The draws that pass `pass` records while `scene` is rendered.
pub open spec fn calls_of_pass(
    session: Session,
    scene: Seq<PassObjectsView>,
    pass: int,
) -> Seq<DrawCallView> {
    calls_of(
        pass_start(session, scene, pass),
        objects_for(scene, session.graph.passes[pass].name, scene.len() as int),
        objects_for(scene, session.graph.passes[pass].name, scene.len() as int).len() as int,
    )
}

/// `graph` is recording pass `pass` with these draws, after these
/// recordings.
pub open spec fn records(
    graph: GraphState,
    pass: int,
    draws: Seq<DrawCallView>,
    done: Seq<PassRecordView>,
) -> bool {
    graph.frame == (FrameState::Recording { pass, draws, done })
}

/// One draw per object: as many draws as objects, and each draw covers the
/// mesh and the region of its object.
pub proof fn lemma_calls_follow_objects(session: Session, objects: Seq<DrawObjectView>, n: int)
    requires
        0 <= n <= objects.len(),
    ensures
        calls_of(session, objects, n).len() == n,
        forall|k: int|
            0 <= k < n ==> {
                &&& (#[trigger] calls_of(session, objects, n)[k]).vertex_count
                    == objects[k].mesh.vertex_count
                &&& calls_of(session, objects, n)[k].index_count == objects[k].mesh.index_count
                &&& calls_of(session, objects, n)[k].viewport == viewport_of(
                    objects[k],
                    session.graph.surface,
                )
                &&& calls_of(session, objects, n)[k].sets.len() == objects[k].sets.len()
            },
    decreases n,
{
    if n > 0 {
        lemma_calls_follow_objects(session, objects, n - 1);
    }
}

/// Drawing objects appends their draws to the current pass and leaves the
/// rest of the graph as it is.
pub proof fn lemma_draws_are_recorded(session: Session, objects: Seq<DrawObjectView>, n: int)
    requires
        session.graph.recording(),
    ensures
        session.drawn_all(objects, n).graph == (GraphState {
            frame: FrameState::Recording {
                pass: session.graph.frame->Recording_pass,
                draws: session.graph.frame->Recording_draws + calls_of(session, objects, n),
                done: session.graph.frame->Recording_done,
            },
            ..session.graph
        }),
    decreases n,
{
    let draws = session.graph.frame->Recording_draws;
    if n <= 0 {
        assert(draws + calls_of(session, objects, n) =~= draws);
    } else {
        lemma_draws_are_recorded(session, objects, n - 1);
        let before = session.drawn_all(objects, n - 1);
        let call = recorded_call(
            objects[n - 1],
            before.pipelines,
            before.bindings,
            session.graph.surface,
        );
        assert((draws + calls_of(session, objects, n - 1)).push(call) =~= draws + calls_of(
            session,
            objects,
            n,
        ));
    }
}

/// Drawing two lists of objects one after the other is drawing the two
/// lists joined.
pub proof fn lemma_draws_join(
    session: Session,
    first: Seq<DrawObjectView>,
    second: Seq<DrawObjectView>,
    n: int,
)
    requires
        0 <= n <= second.len(),
    ensures
        session.drawn_all(first + second, first.len() + n) == session.drawn_all(
            first,
            first.len() as int,
        ).drawn_all(second, n),
    decreases n,
{
    let joined = first + second;
    if n == 0 {
        lemma_draws_read_prefix(session, joined, first, first.len() as int);
    } else {
        lemma_draws_join(session, first, second, n - 1);
        assert(joined[first.len() + n - 1] == second[n - 1]);
    }
}

/// Drawing the first `n` objects of a list reads those `n` only.
pub proof fn lemma_draws_read_prefix(
    session: Session,
    long: Seq<DrawObjectView>,
    short: Seq<DrawObjectView>,
    n: int,
)
    requires
        0 <= n <= short.len() <= long.len(),
        forall|k: int| 0 <= k < n ==> long[k] == short[k],
    ensures
        session.drawn_all(long, n) == session.drawn_all(short, n),
    decreases n,
{
    if n > 0 {
        lemma_draws_read_prefix(session, long, short, n - 1);
    }
}

/// Drawing what a scene registers under a name is drawing, in scene order,
/// the objects of the entries with that name.
pub proof fn lemma_entries_are_their_objects(
    session: Session,
    scene: Seq<PassObjectsView>,
    name: Seq<char>,
    n: int,
)
    requires
        0 <= n <= scene.len(),
    ensures
        session.drawn_entries(scene, name, n) == session.drawn_all(
            objects_for(scene, name, n),
            objects_for(scene, name, n).len() as int,
        ),
    decreases n,
{
    if n > 0 {
        lemma_entries_are_their_objects(session, scene, name, n - 1);
        if scene[n - 1].pass == name {
            lemma_draws_join(
                session,
                objects_for(scene, name, n - 1),
                scene[n - 1].objects,
                scene[n - 1].objects.len() as int,
            );
        }
    }
}

/// While a scene is rendered, the graph that reaches pass `pass` has closed
/// every pass before it, in declared order and each with the draws of its
/// own objects; it has just drawn the objects of `pass`; and its passes,
/// its supplied images and its surface are as they were at the start.
pub proof fn lemma_rendered_state(session: Session, scene: Seq<PassObjectsView>, pass: int)
    requires
        0 <= pass < session.graph.passes.len(),
        session.graph.passes.len() <= usize::MAX,
    ensures
        session.rendered_upto(scene, pass).graph.passes == session.graph.passes,
        session.rendered_upto(scene, pass).graph.fixed == session.graph.fixed,
        session.rendered_upto(scene, pass).graph.surface == session.graph.surface,
        session.rendered_upto(scene, pass).graph.output == session.graph.output,
        session.rendered_upto(scene, pass).graph.frame is Recording,
        session.rendered_upto(scene, pass).graph.frame->Recording_pass == pass,
        session.rendered_upto(scene, pass).graph.frame->Recording_draws == calls_of_pass(
            session,
            scene,
            pass,
        ),
        session.rendered_upto(scene, pass).graph.frame->Recording_done.len() == pass,
        forall|q: int|
            0 <= q < pass ==> {
                &&& (#[trigger] session.rendered_upto(
                    scene,
                    pass,
                ).graph.frame->Recording_done[q]).pass == q
                &&& session.rendered_upto(scene, pass).graph.frame->Recording_done[q].draws
                    == calls_of_pass(session, scene, q)
            },
    decreases pass,
{
    let start = pass_start(session, scene, pass);
    let name = session.graph.passes[pass].name;
    let objects = objects_for(scene, name, scene.len() as int);
    if pass > 0 {
        lemma_rendered_state(session, scene, pass - 1);
        let before = session.rendered_upto(scene, pass - 1);
        assert(before.graph.can_advance());
        assert(start.graph.frame->Recording_done =~= before.graph.frame->Recording_done.push(
            before.graph.record(pass - 1, before.graph.frame->Recording_draws),
        ));
    }
    assert(start.graph.passes == session.graph.passes);
    assert(start.graph.recording());
    assert(start.graph.frame->Recording_pass == pass);
    assert(start.graph.frame->Recording_draws =~= Seq::<DrawCallView>::empty());
    lemma_entries_are_their_objects(start, scene, name, scene.len() as int);
    lemma_draws_are_recorded(start, objects, objects.len() as int);
    assert(Seq::<DrawCallView>::empty() + calls_of(start, objects, objects.len() as int)
        =~= calls_of(start, objects, objects.len() as int));
    assert(session.rendered_upto(scene, pass) == start.pass_drawn(scene, pass));
    let done = session.rendered_upto(scene, pass).graph.frame->Recording_done;
    assert(done == start.graph.frame->Recording_done);
    assert forall|q: int| 0 <= q < pass implies (#[trigger] done[q]).pass == q && done[q].draws
        == calls_of_pass(session, scene, q) by {
        let before = session.rendered_upto(scene, pass - 1);
        if q < pass - 1 {
            assert(done[q] == before.graph.frame->Recording_done[q]);
        }
    }
}

/// In a rendered frame every pass is recorded once, in declared order, and
/// the draws of a pass are the draws of the objects that the scene
/// registers under its name: one draw per object, in scene order, each over
/// the mesh and the region of its object.
pub proof fn lemma_render_draws_registered_objects(
    session: Session,
    scene: Seq<PassObjectsView>,
    pass: int,
)
    requires
        0 <= pass < session.graph.passes.len(),
        session.graph.passes.len() <= usize::MAX,
    ensures
        session.rendered(scene).graph.finished_frame().passes.len()
            == session.graph.passes.len(),
        session.rendered(scene).graph.finished_frame().passes[pass].pass == pass,
        session.rendered(scene).graph.finished_frame().passes[pass].draws == calls_of_pass(
            session,
            scene,
            pass,
        ),
        calls_of_pass(session, scene, pass).len() == objects_for(
            scene,
            session.graph.passes[pass].name,
            scene.len() as int,
        ).len(),
        forall|k: int|
            0 <= k < calls_of_pass(session, scene, pass).len() ==> {
                &&& (#[trigger] calls_of_pass(session, scene, pass)[k]).vertex_count
                    == objects_for(
                    scene,
                    session.graph.passes[pass].name,
                    scene.len() as int,
                )[k].mesh.vertex_count
                &&& calls_of_pass(session, scene, pass)[k].index_count == objects_for(
                    scene,
                    session.graph.passes[pass].name,
                    scene.len() as int,
                )[k].mesh.index_count
                &&& calls_of_pass(session, scene, pass)[k].viewport == viewport_of(
                    objects_for(scene, session.graph.passes[pass].name, scene.len() as int)[k],
                    session.graph.surface,
                )
            },
{
    let last = session.graph.passes.len() - 1;
    let end = session.rendered(scene).graph;
    lemma_rendered_state(session, scene, last);
    lemma_records_in_order(
        end,
        last,
        end.frame->Recording_draws,
        end.frame->Recording_done,
    );
    let objects = objects_for(scene, session.graph.passes[pass].name, scene.len() as int);
    let start = pass_start(session, scene, pass);
    lemma_calls_follow_objects(start, objects, objects.len() as int);
    if pass > 0 {
        lemma_rendered_state(session, scene, pass - 1);
    }
    assert(start.graph.surface == session.graph.surface);
}

} // verus!
