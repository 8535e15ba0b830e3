use render_engine::error::ConfigError;
use render_engine::images::{
    Extent, FixedImage, ImageDecl, ImageFormat, ImageInfo, Origin, Sizing,
};
use render_engine::pass::{Pass, RenderPassDesc};
use render_engine::pass_graph::PassGraph;

fn surface() -> Extent {
    Extent { width: 800, height: 600 }
}

fn color(tag: &str) -> ImageDecl {
    ImageDecl { tag: tag.to_string(), format: ImageFormat::Color, sizing: Sizing::WindowRelative }
}

fn shadow(tag: &str) -> ImageDecl {
    ImageDecl {
        tag: tag.to_string(),
        format: ImageFormat::Depth,
        sizing: Sizing::Fixed(Extent { width: 6144, height: 1024 }),
    }
}

fn pass(name: &str, id: u64, created: Vec<ImageDecl>, needed: &[&str]) -> Pass {
    Pass {
        name: name.to_string(),
        created,
        needed_tags: needed.iter().map(|tag| tag.to_string()).collect(),
        target: RenderPassDesc { id, color_attachments: 1, has_depth: true },
    }
}

fn supplied(tag: &str) -> FixedImage {
    FixedImage {
        tag: tag.to_string(),
        format: ImageFormat::Depth,
        extent: Extent { width: 512, height: 256 },
    }
}

#[test]
fn two_stage_graph_constructs() {
    let passes = vec![pass("A", 1, vec![color("x")], &[]), pass("B", 2, vec![color("y")], &["x"])];
    let graph = PassGraph::construct(passes, vec![], "y".to_string(), surface()).unwrap();
    assert_eq!(graph.pass_count(), 2);
    assert_eq!(graph.image_count(), 2);
    assert_eq!(graph.output_tag(), "y");
    assert_eq!(graph.output_slot(), 1);
    assert_eq!(graph.slot_of(&"x".to_string()), Some(0));
    assert_eq!(graph.slot_of(&"y".to_string()), Some(1));
    assert_eq!(graph.current_pass(), None);
}

#[test]
fn input_produced_by_a_later_pass_is_refused() {
    let passes = vec![pass("A", 1, vec![color("x")], &["y"]), pass("B", 2, vec![color("y")], &[])];
    let error = PassGraph::construct(passes, vec![], "y".to_string(), surface()).unwrap_err();
    assert_eq!(error, ConfigError::MissingInput { pass: 0, tag: "y".to_string() });
}

#[test]
fn input_from_supplied_image_resolves() {
    let passes = vec![pass("final", 1, vec![color("color")], &["shadow_map"])];
    let graph =
        PassGraph::construct(passes, vec![supplied("shadow_map")], "color".to_string(), surface())
            .unwrap();
    assert_eq!(graph.image_count(), 2);
    assert_eq!(graph.slot_of(&"shadow_map".to_string()), Some(0));
    assert_eq!(graph.output_slot(), 1);
    assert_eq!(
        graph.image(0),
        Some(ImageInfo {
            format: ImageFormat::Depth,
            sizing: Sizing::Fixed(Extent { width: 512, height: 256 }),
            origin: Origin::Supplied,
            extent: Some(Extent { width: 512, height: 256 }),
        })
    );
    assert_eq!(
        graph.image(1),
        Some(ImageInfo {
            format: ImageFormat::Color,
            sizing: Sizing::WindowRelative,
            origin: Origin::Pass(0),
            extent: None,
        })
    );
    assert_eq!(graph.image(2), None);
}

#[test]
fn input_never_produced_is_refused() {
    let passes = vec![pass("A", 1, vec![color("x")], &[]), pass("B", 2, vec![color("y")], &["z"])];
    let error = PassGraph::construct(passes, vec![], "y".to_string(), surface()).unwrap_err();
    assert_eq!(error, ConfigError::MissingInput { pass: 1, tag: "z".to_string() });
}

#[test]
fn pass_cannot_sample_its_own_output() {
    let passes = vec![pass("A", 1, vec![color("x")], &["x"])];
    let error = PassGraph::construct(passes, vec![], "x".to_string(), surface()).unwrap_err();
    assert_eq!(error, ConfigError::MissingInput { pass: 0, tag: "x".to_string() });
}

#[test]
fn first_missing_input_is_named() {
    let passes = vec![
        pass("A", 1, vec![color("x")], &[]),
        pass("B", 2, vec![color("y")], &["x", "q", "r"]),
        pass("C", 3, vec![color("z")], &["s"]),
    ];
    let error = PassGraph::construct(passes, vec![], "z".to_string(), surface()).unwrap_err();
    assert_eq!(error, ConfigError::MissingInput { pass: 1, tag: "q".to_string() });
}

#[test]
fn tag_produced_by_two_passes_is_refused() {
    let passes = vec![pass("A", 1, vec![color("x")], &[]), pass("B", 2, vec![color("x")], &[])];
    let error = PassGraph::construct(passes, vec![], "x".to_string(), surface()).unwrap_err();
    assert_eq!(error, ConfigError::DuplicateTag { origin: Origin::Pass(1), tag: "x".to_string() });
}

#[test]
fn tag_produced_twice_by_one_pass_is_refused() {
    let passes = vec![pass("A", 1, vec![color("x"), shadow("x")], &[])];
    let error = PassGraph::construct(passes, vec![], "x".to_string(), surface()).unwrap_err();
    assert_eq!(error, ConfigError::DuplicateTag { origin: Origin::Pass(0), tag: "x".to_string() });
}

#[test]
fn tag_produced_by_pass_and_caller_is_refused() {
    let passes = vec![pass("shadow", 1, vec![shadow("shadow_map")], &[])];
    let error = PassGraph::construct(
        passes,
        vec![supplied("shadow_map")],
        "shadow_map".to_string(),
        surface(),
    )
    .unwrap_err();
    assert_eq!(
        error,
        ConfigError::DuplicateTag { origin: Origin::Pass(0), tag: "shadow_map".to_string() }
    );
}

#[test]
fn tag_supplied_twice_is_refused() {
    let passes = vec![pass("A", 1, vec![color("x")], &[])];
    let error = PassGraph::construct(
        passes,
        vec![supplied("s"), supplied("t"), supplied("s")],
        "x".to_string(),
        surface(),
    )
    .unwrap_err();
    assert_eq!(error, ConfigError::DuplicateTag { origin: Origin::Supplied, tag: "s".to_string() });
}

#[test]
fn duplicate_is_reported_before_missing_input() {
    let passes = vec![
        pass("A", 1, vec![color("x")], &["nowhere"]),
        pass("B", 2, vec![color("x")], &[]),
    ];
    let error = PassGraph::construct(passes, vec![], "x".to_string(), surface()).unwrap_err();
    assert_eq!(error, ConfigError::DuplicateTag { origin: Origin::Pass(1), tag: "x".to_string() });
}

#[test]
fn missing_input_is_reported_before_unknown_output() {
    let passes = vec![pass("A", 1, vec![color("x")], &["nowhere"])];
    let error = PassGraph::construct(passes, vec![], "other".to_string(), surface()).unwrap_err();
    assert_eq!(error, ConfigError::MissingInput { pass: 0, tag: "nowhere".to_string() });
}

#[test]
fn output_never_produced_is_refused() {
    let passes = vec![pass("A", 1, vec![color("x")], &[])];
    let error = PassGraph::construct(passes, vec![], "y".to_string(), surface()).unwrap_err();
    assert_eq!(error, ConfigError::UnknownOutput { tag: "y".to_string() });
}

#[test]
fn output_that_only_the_caller_supplies_is_refused() {
    let passes = vec![pass("A", 1, vec![color("x")], &["s"])];
    let error =
        PassGraph::construct(passes, vec![supplied("s")], "s".to_string(), surface()).unwrap_err();
    assert_eq!(error, ConfigError::UnknownOutput { tag: "s".to_string() });
}

#[test]
fn no_passes_is_refused() {
    let error = PassGraph::construct(vec![], vec![supplied("s")], "s".to_string(), surface())
        .unwrap_err();
    assert_eq!(error, ConfigError::UnknownOutput { tag: "s".to_string() });
}

#[test]
fn five_stage_graph_constructs() {
    let passes = vec![
        pass("shadow", 1, vec![shadow("shadow_map")], &[]),
        pass("shadow_blur", 2, vec![shadow("shadow_map_blur")], &["shadow_map"]),
        pass("depth_prepass", 3, vec![color("depth_prepass")], &[]),
        pass("depth_viewer", 4, vec![color("depth_view")], &["depth_prepass", "shadow_map_blur"]),
        pass("geometry", 5, vec![color("color"), color("depth")], &["shadow_map_blur"]),
    ];
    let graph = PassGraph::construct(passes, vec![], "color".to_string(), surface()).unwrap();
    assert_eq!(graph.pass_count(), 5);
    assert_eq!(graph.image_count(), 6);
    assert_eq!(graph.output_slot(), 4);
    assert_eq!(graph.slot_of(&"depth".to_string()), Some(5));
    assert_eq!(graph.slot_of(&"absent".to_string()), None);
}

#[test]
fn pass_is_found_by_name() {
    let passes = vec![pass("A", 7, vec![color("x")], &[]), pass("B", 9, vec![color("y")], &["x"])];
    let graph = PassGraph::construct(passes, vec![], "y".to_string(), surface()).unwrap();
    assert_eq!(graph.pass_index(&"A".to_string()), Ok(0));
    assert_eq!(graph.pass_index(&"B".to_string()), Ok(1));
    assert_eq!(
        graph.target_of(1),
        Some(RenderPassDesc { id: 9, color_attachments: 1, has_depth: true })
    );
    assert_eq!(graph.target_of(2), None);
}

#[test]
fn unknown_pass_name_is_refused() {
    let passes = vec![pass("A", 7, vec![color("x")], &[])];
    let graph = PassGraph::construct(passes, vec![], "x".to_string(), surface()).unwrap();
    assert_eq!(
        graph.pass_index(&"C".to_string()),
        Err(ConfigError::UnknownPass { name: "C".to_string() })
    );
}

#[test]
fn first_of_two_passes_with_one_name_is_found() {
    let passes = vec![pass("A", 7, vec![color("x")], &[]), pass("A", 8, vec![color("y")], &[])];
    let graph = PassGraph::construct(passes, vec![], "y".to_string(), surface()).unwrap();
    assert_eq!(graph.pass_index(&"A".to_string()), Ok(0));
}

#[test]
fn output_tag_is_switched_to_a_produced_tag() {
    let passes = vec![pass("A", 1, vec![color("x")], &[]), pass("B", 2, vec![color("y")], &["x"])];
    let mut graph =
        PassGraph::construct(passes, vec![supplied("s")], "y".to_string(), surface()).unwrap();
    assert_eq!(graph.output_slot(), 2);
    assert_eq!(graph.set_output_tag("x".to_string()), Ok(()));
    assert_eq!(graph.output_tag(), "x");
    assert_eq!(graph.output_slot(), 1);
}

#[test]
fn output_tag_that_no_pass_produces_is_refused() {
    let passes = vec![pass("A", 1, vec![color("x")], &[]), pass("B", 2, vec![color("y")], &["x"])];
    let mut graph =
        PassGraph::construct(passes, vec![supplied("s")], "y".to_string(), surface()).unwrap();
    assert_eq!(
        graph.set_output_tag("s".to_string()),
        Err(ConfigError::UnknownOutput { tag: "s".to_string() })
    );
    assert_eq!(
        graph.set_output_tag("nowhere".to_string()),
        Err(ConfigError::UnknownOutput { tag: "nowhere".to_string() })
    );
    assert_eq!(graph.output_tag(), "y");
    assert_eq!(graph.output_slot(), 2);
}
