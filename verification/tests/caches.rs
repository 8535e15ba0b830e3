use render_engine::binding_cache::{BindingHandle, BindingLookup, ResourceBindingCache};
use render_engine::pipeline_cache::{
    PipelineCache, PipelineHandle, PipelineLookup, PipelineSpec, Topology, VertexAttribute,
};

fn base_spec() -> PipelineSpec {
    PipelineSpec {
        vs_path: "shaders/vert.glsl".to_string(),
        fs_path: "shaders/all_frag.glsl".to_string(),
        vertex_layout: vec![
            VertexAttribute { offset: 0, components: 3 },
            VertexAttribute { offset: 12, components: 2 },
        ],
        topology: Topology::TriangleList,
        read_depth: true,
        write_depth: true,
        target_pass: 1,
    }
}

fn variants() -> Vec<PipelineSpec> {
    let base = base_spec();
    vec![
        PipelineSpec { vs_path: "shaders/light_vert.glsl".to_string(), ..base.clone() },
        PipelineSpec { fs_path: "shaders/normals_only.glsl".to_string(), ..base.clone() },
        PipelineSpec {
            vertex_layout: vec![VertexAttribute { offset: 0, components: 3 }],
            ..base.clone()
        },
        PipelineSpec {
            vertex_layout: vec![
                VertexAttribute { offset: 0, components: 3 },
                VertexAttribute { offset: 12, components: 4 },
            ],
            ..base.clone()
        },
        PipelineSpec { topology: Topology::LineList, ..base.clone() },
        PipelineSpec { read_depth: false, ..base.clone() },
        PipelineSpec { write_depth: false, ..base.clone() },
        PipelineSpec { target_pass: 2, ..base.clone() },
    ]
}

#[test]
fn new_pipeline_cache_is_empty() {
    let cache = PipelineCache::new();
    assert_eq!(cache.misses(), 0);
    assert_eq!(cache.hits(), 0);
    assert!(!cache.contains(&base_spec()));
}

#[test]
fn equal_specs_build_once() {
    let mut cache = PipelineCache::new();
    let first = cache.get_or_build(&base_spec());
    let second = cache.get_or_build(&base_spec());
    assert_eq!(first, PipelineLookup { handle: PipelineHandle { index: 0 }, built: true });
    assert_eq!(second, PipelineLookup { handle: PipelineHandle { index: 0 }, built: false });
    assert_eq!(cache.misses(), 1);
    assert_eq!(cache.hits(), 1);
    assert!(cache.contains(&base_spec()));
}

#[test]
fn specs_from_different_call_sites_share_an_entry() {
    let mut cache = PipelineCache::new();
    let mut written_by_hand = base_spec();
    written_by_hand.fs_path = String::from("shaders/") + "all_frag.glsl";
    let first = cache.get_or_build(&base_spec());
    let second = cache.get_or_build(&written_by_hand.duplicate());
    assert_eq!(first.handle, second.handle);
    assert!(!second.built);
    assert_eq!(cache.misses(), 1);
}

#[test]
fn specs_differing_in_one_field_build_twice() {
    for variant in variants() {
        let mut cache = PipelineCache::new();
        let first = cache.get_or_build(&base_spec());
        let second = cache.get_or_build(&variant);
        assert!(first.built);
        assert!(second.built);
        assert_eq!(first.handle, PipelineHandle { index: 0 });
        assert_eq!(second.handle, PipelineHandle { index: 1 });
        assert_eq!(cache.misses(), 2);
        assert_eq!(cache.hits(), 0);
    }
}

#[test]
fn same_as_compares_every_field() {
    assert!(base_spec().same_as(&base_spec()));
    assert!(base_spec().same_as(&base_spec().duplicate()));
    for variant in variants() {
        assert!(!base_spec().same_as(&variant));
        assert!(!variant.same_as(&base_spec()));
        assert!(variant.same_as(&variant.duplicate()));
    }
}

#[test]
fn superseded_entry_is_reused() {
    let mut cache = PipelineCache::new();
    let debug = PipelineSpec { fs_path: "shaders/normals_only.glsl".to_string(), ..base_spec() };
    let normal = cache.get_or_build(&base_spec());
    let swapped = cache.get_or_build(&debug);
    let back = cache.get_or_build(&base_spec());
    let again = cache.get_or_build(&debug);
    assert_eq!(normal.handle, PipelineHandle { index: 0 });
    assert_eq!(swapped.handle, PipelineHandle { index: 1 });
    assert_eq!(back, PipelineLookup { handle: PipelineHandle { index: 0 }, built: false });
    assert_eq!(again, PipelineLookup { handle: PipelineHandle { index: 1 }, built: false });
    assert_eq!(cache.misses(), 2);
    assert_eq!(cache.hits(), 2);
}

#[test]
fn every_distinct_spec_gets_its_own_handle() {
    let mut cache = PipelineCache::new();
    let mut specs = variants();
    specs.push(base_spec());
    for round in 0..3 {
        for (position, spec) in specs.iter().enumerate() {
            let found = cache.get_or_build(spec);
            assert_eq!(found.handle, PipelineHandle { index: position });
            assert_eq!(found.built, round == 0);
        }
    }
    assert_eq!(cache.misses(), specs.len());
    assert_eq!(cache.hits(), 2 * specs.len() as u64);
}

#[test]
fn new_binding_cache_is_empty() {
    let cache = ResourceBindingCache::new();
    assert_eq!(cache.misses(), 0);
    assert_eq!(cache.hits(), 0);
    assert!(!cache.contains(1, &vec![]));
}

#[test]
fn same_buffer_list_gets_same_handle() {
    let mut cache = ResourceBindingCache::new();
    let first = cache.get_or_build(4, &vec![10, 11, 12]);
    let second = cache.get_or_build(4, &vec![10, 11, 12]);
    assert_eq!(first, BindingLookup { handle: BindingHandle { index: 0 }, built: true });
    assert_eq!(second, BindingLookup { handle: BindingHandle { index: 0 }, built: false });
    assert_eq!(cache.misses(), 1);
    assert_eq!(cache.hits(), 1);
    assert!(cache.contains(4, &vec![10, 11, 12]));
}

#[test]
fn changing_one_buffer_gets_another_handle() {
    for position in 0..3 {
        let mut cache = ResourceBindingCache::new();
        let buffers: Vec<u64> = vec![10, 11, 12];
        let mut changed = buffers.clone();
        changed[position] = 99;
        let first = cache.get_or_build(4, &buffers);
        let second = cache.get_or_build(4, &changed);
        assert_eq!(first.handle, BindingHandle { index: 0 });
        assert_eq!(second, BindingLookup { handle: BindingHandle { index: 1 }, built: true });
        assert_eq!(cache.misses(), 2);
    }
}

#[test]
fn buffer_order_is_part_of_the_key() {
    let mut cache = ResourceBindingCache::new();
    let first = cache.get_or_build(4, &vec![10, 11]);
    let second = cache.get_or_build(4, &vec![11, 10]);
    assert_ne!(first.handle, second.handle);
    assert!(second.built);
}

#[test]
fn layout_is_part_of_the_key() {
    let mut cache = ResourceBindingCache::new();
    let first = cache.get_or_build(4, &vec![10, 11]);
    let second = cache.get_or_build(5, &vec![10, 11]);
    assert_ne!(first.handle, second.handle);
    assert!(second.built);
    assert!(!cache.contains(6, &vec![10, 11]));
}

#[test]
fn shorter_and_longer_lists_are_other_keys() {
    let mut cache = ResourceBindingCache::new();
    let empty = cache.get_or_build(4, &vec![]);
    let one = cache.get_or_build(4, &vec![10]);
    let two = cache.get_or_build(4, &vec![10, 10]);
    let again = cache.get_or_build(4, &vec![]);
    assert_eq!(empty.handle, BindingHandle { index: 0 });
    assert_eq!(one.handle, BindingHandle { index: 1 });
    assert_eq!(two.handle, BindingHandle { index: 2 });
    assert_eq!(again, BindingLookup { handle: BindingHandle { index: 0 }, built: false });
}

#[test]
fn caller_list_is_copied_not_kept() {
    let mut cache = ResourceBindingCache::new();
    let mut buffers: Vec<u64> = vec![10, 11];
    let first = cache.get_or_build(4, &buffers);
    buffers[0] = 50;
    let changed = cache.get_or_build(4, &buffers);
    let untouched = cache.get_or_build(4, &vec![10, 11]);
    assert!(changed.built);
    assert_eq!(untouched, BindingLookup { handle: first.handle, built: false });
}
