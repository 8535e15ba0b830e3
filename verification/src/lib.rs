//! Render-graph orchestration: an ordered list of passes wired together by
//! named images, and the two caches that keep GPU object builds to one per
//! distinct configuration.
//!
//! The library decides and records; it never touches the GPU. A frame comes
//! back as plain data: for each pass, in declared order, the images to render
//! into, the images to sample and the draws to issue, and at the end the
//! image to present. Pipelines, binding sets and images are named by handles
//! and registry positions, and every answer says whether the object behind
//! it has yet to be built.
//!
//! - [`pass_graph`] holds the graph itself: construction, resizing, the
//!   selection of the output, and the recording of frames.
//! - [`config`] and [`error`] say what makes a configuration valid and which
//!   fault is reported when it is not.
//! - [`graph_state`] is the state of a graph as a mathematical value, and
//!   [`graph_laws`] what holds of every step on it.
//! - [`pipeline_cache`] and [`binding_cache`] build each distinct key once;
//!   [`build_once`] is the rule they share.
//! - [`draw_object`] couples a mesh, a pipeline and resource sets, and
//!   [`scene`] registers draw objects for passes by name.

pub mod binding_cache;
pub mod build_once;
pub mod config;
pub mod draw_call;
pub mod draw_object;
pub mod error;
pub mod frame;
pub mod graph_laws;
pub mod graph_state;
pub mod images;
pub mod pass;
pub mod pass_graph;
pub mod pipeline_cache;
mod registry;
pub mod scene;
pub mod scene_laws;
pub mod tags;
pub mod utils;
