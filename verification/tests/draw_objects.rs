use render_engine::binding_cache::{BindingHandle, ResourceBindingCache};
use render_engine::draw_call::{DrawCall, Region};
use render_engine::draw_object::{DrawObject, DrawPrototype, Mesh, ResourceSet};
use render_engine::images::{Extent, ImageDecl, ImageFormat, Sizing};
use render_engine::pass::{Pass, RenderPassDesc};
use render_engine::pass_graph::PassGraph;
use render_engine::pipeline_cache::{
    PipelineCache, PipelineHandle, PipelineSpec, Topology, VertexAttribute,
};

const SURFACE: Extent = Extent { width: 1280, height: 720 };
const WHOLE: Region = Region { x: 0, y: 0, width: 1280, height: 720 };

fn target(id: u64) -> RenderPassDesc {
    RenderPassDesc { id, color_attachments: 1, has_depth: true }
}

fn mesh() -> Mesh {
    Mesh { vertex_buffer: 70, index_buffer: 71, vertex_count: 24, index_count: 36 }
}

fn buffers(layout: u64, ids: &[u64]) -> ResourceSet {
    ResourceSet::Buffers { layout, buffers: ids.to_vec() }
}

fn prototype(sets: Vec<ResourceSet>, viewport: Option<Region>) -> DrawPrototype {
    DrawPrototype {
        vs_path: "shaders/shadow_cast_vert.glsl".to_string(),
        fs_path: "shaders/shadow_cast_frag.glsl".to_string(),
        vertex_layout: vec![VertexAttribute { offset: 0, components: 3 }],
        mesh: mesh(),
        topology: Topology::TriangleList,
        read_depth: true,
        write_depth: true,
        sets,
        viewport,
    }
}

fn graph() -> PassGraph {
    let passes = vec![
        Pass {
            name: "shadow".to_string(),
            created: vec![ImageDecl {
                tag: "shadow_map".to_string(),
                format: ImageFormat::Depth,
                sizing: Sizing::Fixed(Extent { width: 6144, height: 1024 }),
            }],
            needed_tags: vec![],
            target: target(1),
        },
        Pass {
            name: "final".to_string(),
            created: vec![ImageDecl {
                tag: "color".to_string(),
                format: ImageFormat::Color,
                sizing: Sizing::WindowRelative,
            }],
            needed_tags: vec!["shadow_map".to_string()],
            target: target(2),
        },
    ];
    PassGraph::construct(passes, vec![], "color".to_string(), SURFACE).unwrap()
}

#[test]
fn build_binds_the_prototype_to_the_pass() {
    let mut pipelines = PipelineCache::new();
    let (object, built) = prototype(vec![buffers(1, &[5])], None).build(&target(9), &mut pipelines);
    assert!(built);
    assert_eq!(
        object,
        DrawObject {
            pipeline_spec: PipelineSpec {
                vs_path: "shaders/shadow_cast_vert.glsl".to_string(),
                fs_path: "shaders/shadow_cast_frag.glsl".to_string(),
                vertex_layout: vec![VertexAttribute { offset: 0, components: 3 }],
                topology: Topology::TriangleList,
                read_depth: true,
                write_depth: true,
                target_pass: 9,
            },
            mesh: mesh(),
            sets: vec![buffers(1, &[5])],
            viewport: None,
        }
    );
    assert_eq!(pipelines.misses(), 1);
    assert!(pipelines.contains(&object.pipeline_spec));
}

#[test]
fn objects_from_one_prototype_share_a_pipeline() {
    let mut pipelines = PipelineCache::new();
    let (_, first) = prototype(vec![buffers(1, &[5])], None).build(&target(9), &mut pipelines);
    let (_, second) = prototype(vec![], None).build(&target(9), &mut pipelines);
    let (_, other_pass) = prototype(vec![], None).build(&target(10), &mut pipelines);
    assert!(first);
    assert!(!second);
    assert!(other_pass);
    assert_eq!(pipelines.misses(), 2);
    assert_eq!(pipelines.hits(), 1);
}

#[test]
fn deferred_build_leaves_the_cache_alone() {
    let mut pipelines = PipelineCache::new();
    let mut bindings = ResourceBindingCache::new();
    let object = prototype(vec![], None).build_deferred(&target(9));
    assert_eq!(object.pipeline_spec.target_pass, 9);
    assert_eq!(pipelines.misses(), 0);
    let call = object.draw(&mut pipelines, &mut bindings, SURFACE);
    assert_eq!(call.pipeline, PipelineHandle { index: 0 });
    assert_eq!(pipelines.misses(), 1);
    assert_eq!(pipelines.hits(), 0);
}

#[test]
fn draw_resolves_pipeline_and_sets_in_order() {
    let mut pipelines = PipelineCache::new();
    let mut bindings = ResourceBindingCache::new();
    pipelines.get_or_build(&prototype(vec![], None).build_deferred(&target(1)).pipeline_spec);
    bindings.get_or_build(2, &vec![20, 21]);
    let sets = vec![buffers(1, &[10]), buffers(2, &[20, 21]), buffers(1, &[10]), buffers(3, &[])];
    let (object, built) = prototype(sets, None).build(&target(2), &mut pipelines);
    assert!(built);
    let call = object.draw(&mut pipelines, &mut bindings, SURFACE);
    assert_eq!(
        call,
        DrawCall {
            pipeline: PipelineHandle { index: 1 },
            sets: vec![
                BindingHandle { index: 1 },
                BindingHandle { index: 0 },
                BindingHandle { index: 1 },
                BindingHandle { index: 2 },
            ],
            viewport: WHOLE,
            vertex_count: 24,
            index_count: 36,
        }
    );
    assert_eq!(pipelines.misses(), 2);
    assert_eq!(pipelines.hits(), 1);
    assert_eq!(bindings.misses(), 3);
    assert_eq!(bindings.hits(), 2);
    let again = object.draw(&mut pipelines, &mut bindings, SURFACE);
    assert_eq!(again, call);
    assert_eq!(pipelines.misses(), 2);
    assert_eq!(bindings.misses(), 3);
    assert_eq!(bindings.hits(), 6);
}

#[test]
fn carried_binding_sets_need_no_cache() {
    let mut pipelines = PipelineCache::new();
    let mut bindings = ResourceBindingCache::new();
    let sets = vec![
        ResourceSet::Bound(BindingHandle { index: 42 }),
        buffers(1, &[10]),
        ResourceSet::Bound(BindingHandle { index: 7 }),
    ];
    let object = prototype(sets, None).build_deferred(&target(2));
    let call = object.draw(&mut pipelines, &mut bindings, SURFACE);
    assert_eq!(
        call.sets,
        vec![BindingHandle { index: 42 }, BindingHandle { index: 0 }, BindingHandle { index: 7 }]
    );
    assert_eq!(bindings.misses(), 1);
    assert_eq!(bindings.hits(), 0);
}

#[test]
fn own_region_overrides_the_surface() {
    let mut pipelines = PipelineCache::new();
    let mut bindings = ResourceBindingCache::new();
    let patch = Region { x: 2048, y: 0, width: 1024, height: 1024 };
    let caster = prototype(vec![], Some(patch)).build_deferred(&target(1));
    let quad = prototype(vec![], None).build_deferred(&target(1));
    assert_eq!(caster.draw(&mut pipelines, &mut bindings, SURFACE).viewport, patch);
    assert_eq!(quad.draw(&mut pipelines, &mut bindings, SURFACE).viewport, WHOLE);
    let small = Extent { width: 10, height: 20 };
    assert_eq!(caster.draw(&mut pipelines, &mut bindings, small).viewport, patch);
    assert_eq!(
        quad.draw(&mut pipelines, &mut bindings, small).viewport,
        Region { x: 0, y: 0, width: 10, height: 20 }
    );
}

#[test]
fn changed_shader_is_a_new_pipeline_and_the_old_one_stays() {
    let mut pipelines = PipelineCache::new();
    let mut bindings = ResourceBindingCache::new();
    let (mut object, _) = prototype(vec![], None).build(&target(2), &mut pipelines);
    let normal = object.draw(&mut pipelines, &mut bindings, SURFACE).pipeline;
    object.pipeline_spec.fs_path = "shaders/normals_only.glsl".to_string();
    let debug = object.draw(&mut pipelines, &mut bindings, SURFACE).pipeline;
    object.pipeline_spec.fs_path = "shaders/shadow_cast_frag.glsl".to_string();
    let back = object.draw(&mut pipelines, &mut bindings, SURFACE).pipeline;
    assert_eq!(normal, PipelineHandle { index: 0 });
    assert_eq!(debug, PipelineHandle { index: 1 });
    assert_eq!(back, normal);
    assert_eq!(pipelines.misses(), 2);
}

#[test]
fn replaced_buffer_needs_a_new_binding_set() {
    let mut pipelines = PipelineCache::new();
    let mut bindings = ResourceBindingCache::new();
    let sets = vec![buffers(1, &[10, 11]), buffers(2, &[20])];
    let mut object = prototype(sets, None).build_deferred(&target(2));
    let before = object.draw(&mut pipelines, &mut bindings, SURFACE);
    let unchanged = object.draw(&mut pipelines, &mut bindings, SURFACE);
    assert_eq!(before.sets, unchanged.sets);
    assert_eq!(bindings.misses(), 2);
    assert!(object.replace_buffer(0, 1, 99));
    assert_eq!(object.sets, vec![buffers(1, &[10, 99]), buffers(2, &[20])]);
    let after = object.draw(&mut pipelines, &mut bindings, SURFACE);
    assert_eq!(after.sets, vec![BindingHandle { index: 2 }, BindingHandle { index: 1 }]);
    assert_eq!(before.sets, vec![BindingHandle { index: 0 }, BindingHandle { index: 1 }]);
    assert_eq!(bindings.misses(), 3);
}

#[test]
fn replace_buffer_refuses_what_is_not_there() {
    let sets = vec![buffers(1, &[10, 11]), ResourceSet::Bound(BindingHandle { index: 3 })];
    let mut object = prototype(sets.clone(), None).build_deferred(&target(2));
    assert!(!object.replace_buffer(0, 2, 99));
    assert!(!object.replace_buffer(1, 0, 99));
    assert!(!object.replace_buffer(2, 0, 99));
    assert_eq!(object.sets, sets);
    assert!(object.replace_buffer(0, 0, 99));
    assert_eq!(object.sets[0], buffers(1, &[99, 11]));
    assert_eq!(object.mesh, mesh());
}

#[test]
fn objects_of_different_shapes_draw_into_one_pass() {
    let mut graph = graph();
    let mut pipelines = PipelineCache::new();
    let mut bindings = ResourceBindingCache::new();
    let caster = prototype(
        vec![buffers(1, &[1]), buffers(2, &[2]), buffers(3, &[3]), buffers(4, &[4])],
        Some(Region { x: 0, y: 0, width: 1024, height: 1024 }),
    )
    .build_deferred(&target(1));
    let quad = prototype(vec![], None).build_deferred(&target(1));
    graph.begin_frame();
    assert!(graph.add_object(&caster, &mut pipelines, &mut bindings));
    assert!(graph.add_object(&quad, &mut pipelines, &mut bindings));
    assert!(graph.add_object(&caster, &mut pipelines, &mut bindings));
    let frame = graph.finish_frame().unwrap();
    let draws = &frame.passes[0].draws;
    assert_eq!(draws.len(), 3);
    assert_eq!(draws[0].sets.len(), 4);
    assert_eq!(draws[1].sets.len(), 0);
    assert_eq!(draws[0], draws[2]);
    assert_eq!(draws[1].viewport, WHOLE);
    assert_eq!(draws[0].pipeline, draws[1].pipeline);
    assert!(frame.passes[1].draws.is_empty());
    assert_eq!(pipelines.misses(), 1);
    assert_eq!(pipelines.hits(), 2);
    assert_eq!(bindings.misses(), 4);
    assert_eq!(bindings.hits(), 4);
}

#[test]
fn object_added_outside_a_frame_touches_nothing() {
    let mut graph = graph();
    let mut pipelines = PipelineCache::new();
    let mut bindings = ResourceBindingCache::new();
    let object = prototype(vec![buffers(1, &[1])], None).build_deferred(&target(1));
    assert!(!graph.add_object(&object, &mut pipelines, &mut bindings));
    assert_eq!(pipelines.misses(), 0);
    assert_eq!(bindings.misses(), 0);
    assert_eq!(graph.finish_frame(), None);
}

#[test]
fn object_draws_to_the_surface_as_resized() {
    let mut graph = graph();
    let mut pipelines = PipelineCache::new();
    let mut bindings = ResourceBindingCache::new();
    let quad = prototype(vec![], None).build_deferred(&target(2));
    graph.resize(Extent { width: 640, height: 480 });
    graph.begin_frame();
    assert!(graph.advance());
    assert!(graph.add_object(&quad, &mut pipelines, &mut bindings));
    let frame = graph.finish_frame().unwrap();
    assert_eq!(
        frame.passes[1].draws[0].viewport,
        Region { x: 0, y: 0, width: 640, height: 480 }
    );
}
