use render_engine::binding_cache::ResourceBindingCache;
use render_engine::draw_call::Region;
use render_engine::draw_object::{DrawObject, DrawPrototype, Mesh, ResourceSet};
use render_engine::error::ConfigError;
use render_engine::images::{Extent, ImageDecl, ImageFormat, Sizing};
use render_engine::pass::{Pass, RenderPassDesc};
use render_engine::pass_graph::PassGraph;
use render_engine::pipeline_cache::{PipelineCache, Topology, VertexAttribute};
use render_engine::scene::PassObjects;

const SURFACE: Extent = Extent { width: 1024, height: 768 };

fn target(id: u64) -> RenderPassDesc {
    RenderPassDesc { id, color_attachments: 1, has_depth: true }
}

fn pass(name: &str, id: u64, created: &[&str], needed: &[&str]) -> Pass {
    Pass {
        name: name.to_string(),
        created: created
            .iter()
            .map(|tag| ImageDecl {
                tag: tag.to_string(),
                format: ImageFormat::Color,
                sizing: Sizing::WindowRelative,
            })
            .collect(),
        needed_tags: needed.iter().map(|tag| tag.to_string()).collect(),
        target: target(id),
    }
}

fn graph() -> PassGraph {
    let passes = vec![
        pass("shadow", 1, &["shadow_map"], &[]),
        pass("cubemap_view", 2, &["cubemap_view"], &["shadow_map"]),
        pass("final", 3, &["final_color", "final_depth"], &["shadow_map"]),
    ];
    PassGraph::construct(passes, vec![], "final_color".to_string(), SURFACE).unwrap()
}

fn object(fragment: &str, pass: u64, vertices: u32, sets: Vec<ResourceSet>) -> DrawObject {
    DrawPrototype {
        vs_path: "shaders/vert.glsl".to_string(),
        fs_path: fragment.to_string(),
        vertex_layout: vec![VertexAttribute { offset: 0, components: 3 }],
        mesh: Mesh { vertex_buffer: 1, index_buffer: 2, vertex_count: vertices, index_count: 0 },
        topology: Topology::TriangleList,
        read_depth: true,
        write_depth: true,
        sets,
        viewport: None,
    }
    .build_deferred(&target(pass))
}

fn camera(buffer: u64) -> Vec<ResourceSet> {
    vec![ResourceSet::Buffers { layout: 1, buffers: vec![buffer] }]
}

fn scene() -> Vec<PassObjects> {
    vec![
        PassObjects {
            pass: "final".to_string(),
            objects: vec![object("final_frag.glsl", 3, 300, camera(7))],
        },
        PassObjects {
            pass: "shadow".to_string(),
            objects: vec![
                object("cast_frag.glsl", 1, 100, camera(5)),
                object("cast_frag.glsl", 1, 101, camera(6)),
            ],
        },
        PassObjects {
            pass: "final".to_string(),
            objects: vec![object("light_frag.glsl", 3, 301, vec![])],
        },
    ]
}

fn vertices(frame: &render_engine::frame::Frame, pass: usize) -> Vec<u32> {
    frame.passes[pass].draws.iter().map(|call| call.vertex_count).collect()
}

#[test]
fn render_draws_each_pass_its_objects_in_scene_order() {
    let mut graph = graph();
    let mut pipelines = PipelineCache::new();
    let mut bindings = ResourceBindingCache::new();
    let frame = graph.render(&scene(), &mut pipelines, &mut bindings).unwrap();
    assert_eq!(frame.passes.len(), 3);
    assert_eq!(vertices(&frame, 0), vec![100, 101]);
    assert_eq!(vertices(&frame, 1), Vec::<u32>::new());
    assert_eq!(vertices(&frame, 2), vec![300, 301]);
    assert_eq!(frame.passes[1].inputs, vec![0]);
    assert_eq!(frame.passes[2].inputs, vec![0]);
    assert_eq!(frame.present, 2);
    assert_eq!(graph.current_pass(), None);
    assert_eq!(
        frame.passes[2].draws[0].viewport,
        Region { x: 0, y: 0, width: 1024, height: 768 }
    );
}

#[test]
fn render_asks_the_caches_in_pass_order() {
    let mut graph = graph();
    let mut pipelines = PipelineCache::new();
    let mut bindings = ResourceBindingCache::new();
    let frame = graph.render(&scene(), &mut pipelines, &mut bindings).unwrap();
    let pipeline_of = |pass: usize, draw: usize| frame.passes[pass].draws[draw].pipeline.index;
    assert_eq!(pipeline_of(0, 0), 0);
    assert_eq!(pipeline_of(0, 1), 0);
    assert_eq!(pipeline_of(2, 0), 1);
    assert_eq!(pipeline_of(2, 1), 2);
    assert_eq!(frame.passes[0].draws[0].sets[0].index, 0);
    assert_eq!(frame.passes[0].draws[1].sets[0].index, 1);
    assert_eq!(frame.passes[2].draws[0].sets[0].index, 2);
    assert!(frame.passes[2].draws[1].sets.is_empty());
    assert_eq!(pipelines.misses(), 3);
    assert_eq!(pipelines.hits(), 1);
    assert_eq!(bindings.misses(), 3);
    let again = graph.render(&scene(), &mut pipelines, &mut bindings).unwrap();
    assert_eq!(pipelines.misses(), 3);
    assert_eq!(bindings.misses(), 3);
    assert_eq!(pipelines.hits(), 5);
    assert_eq!(bindings.hits(), 3);
    for (early, late) in frame.passes.iter().zip(again.passes.iter()) {
        assert_eq!(early.draws, late.draws);
    }
}

#[test]
fn render_is_what_the_steps_record() {
    let mut by_render = graph();
    let mut by_steps = graph();
    let mut pipelines = PipelineCache::new();
    let mut bindings = ResourceBindingCache::new();
    let mut other_pipelines = PipelineCache::new();
    let mut other_bindings = ResourceBindingCache::new();
    let scene = scene();
    let rendered = by_render.render(&scene, &mut pipelines, &mut bindings).unwrap();
    by_steps.begin_frame();
    for object in &scene[1].objects {
        assert!(by_steps.add_object(object, &mut other_pipelines, &mut other_bindings));
    }
    assert!(by_steps.advance());
    assert!(by_steps.advance());
    assert!(by_steps.add_object(&scene[0].objects[0], &mut other_pipelines, &mut other_bindings));
    assert!(by_steps.add_object(&scene[2].objects[0], &mut other_pipelines, &mut other_bindings));
    let stepped = by_steps.finish_frame().unwrap();
    assert_eq!(rendered, stepped);
    assert_eq!(pipelines.misses(), other_pipelines.misses());
    assert_eq!(bindings.hits(), other_bindings.hits());
}

#[test]
fn render_refuses_an_unknown_pass_name() {
    let mut graph = graph();
    let mut pipelines = PipelineCache::new();
    let mut bindings = ResourceBindingCache::new();
    let mut scene = scene();
    scene.push(PassObjects { pass: "blur".to_string(), objects: vec![] });
    scene.push(PassObjects { pass: "bloom".to_string(), objects: vec![] });
    assert_eq!(
        graph.render(&scene, &mut pipelines, &mut bindings),
        Err(ConfigError::UnknownPass { name: "blur".to_string() })
    );
    assert_eq!(graph.current_pass(), None);
    assert_eq!(pipelines.misses(), 0);
    assert_eq!(pipelines.hits(), 0);
    assert_eq!(bindings.misses(), 0);
    assert_eq!(graph.image(0).unwrap().extent, None);
}

#[test]
fn refused_render_leaves_a_frame_in_hand_alone() {
    let mut graph = graph();
    let mut pipelines = PipelineCache::new();
    let mut bindings = ResourceBindingCache::new();
    let unknown = vec![PassObjects { pass: "nowhere".to_string(), objects: vec![] }];
    graph.begin_frame();
    assert!(graph.add_object(&object("a.glsl", 1, 9, vec![]), &mut pipelines, &mut bindings));
    assert!(graph.advance());
    assert!(graph.render(&unknown, &mut pipelines, &mut bindings).is_err());
    assert_eq!(graph.current_pass(), Some(1));
    let frame = graph.finish_frame().unwrap();
    assert_eq!(vertices(&frame, 0), vec![9]);
}

#[test]
fn render_of_an_empty_scene_runs_every_pass() {
    let mut graph = graph();
    let mut pipelines = PipelineCache::new();
    let mut bindings = ResourceBindingCache::new();
    let frame = graph.render(&vec![], &mut pipelines, &mut bindings).unwrap();
    assert_eq!(frame.passes.len(), 3);
    for (position, record) in frame.passes.iter().enumerate() {
        assert_eq!(record.pass, position);
        assert!(record.draws.is_empty());
        assert!(record.outputs.iter().all(|output| output.fresh && output.extent == SURFACE));
    }
    assert_eq!(pipelines.misses(), 0);
}

#[test]
fn render_with_another_output_records_the_same_passes() {
    let mut graph = graph();
    let mut pipelines = PipelineCache::new();
    let mut bindings = ResourceBindingCache::new();
    graph.render(&scene(), &mut pipelines, &mut bindings).unwrap();
    let color = graph.render(&scene(), &mut pipelines, &mut bindings).unwrap();
    assert_eq!(graph.set_output_tag("cubemap_view".to_string()), Ok(()));
    let cubemap = graph.render(&scene(), &mut pipelines, &mut bindings).unwrap();
    assert_eq!(color.passes, cubemap.passes);
    assert_eq!(color.present, 2);
    assert_eq!(cubemap.present, 1);
}

#[test]
fn passes_of_one_name_share_their_objects() {
    let passes = vec![pass("blur", 1, &["once"], &[]), pass("blur", 1, &["twice"], &["once"])];
    let mut graph = PassGraph::construct(passes, vec![], "twice".to_string(), SURFACE).unwrap();
    let mut pipelines = PipelineCache::new();
    let mut bindings = ResourceBindingCache::new();
    let scene = vec![PassObjects {
        pass: "blur".to_string(),
        objects: vec![object("b.glsl", 1, 4, vec![])],
    }];
    let frame = graph.render(&scene, &mut pipelines, &mut bindings).unwrap();
    assert_eq!(vertices(&frame, 0), vec![4]);
    assert_eq!(vertices(&frame, 1), vec![4]);
    assert_eq!(pipelines.misses(), 1);
    assert_eq!(pipelines.hits(), 1);
}
