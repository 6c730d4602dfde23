//! Verified core of the RC flight renderer: render-pass scheduling, upload
//! layout arithmetic, deterministic placement helpers and presentation-state
//! lifecycles.

pub mod photo_field;
pub mod pose;
pub mod profiling;
pub mod search;
pub mod render_graph;
pub mod renderer_v2;
pub mod scenery;
pub mod shadow;
pub mod surfaces;
pub mod terrain;
pub mod terrain_textures;
pub mod texture;
pub mod vegetation;
pub mod vegetation_assets;
pub mod visual_audit;
