//! Verified core of the PSD to Unity UGUI pipeline: PSD binary scanning,
//! layer hierarchy reconstruction, effect bitmap filters, Photoshop driver
//! helpers, UI plan generation and plan validation.

pub mod bytes;
pub mod text;
pub mod psd;
pub mod layer_meta;
pub mod descriptor;
pub mod engine;
pub mod hierarchy;
pub mod tree_laws;
pub mod export_model;
pub mod export;
pub mod asset_stems;
pub mod raster;
pub mod parse;
pub mod effects;
pub mod errors;
pub mod photoshop;
pub mod manifest;
pub mod models;
pub mod planner;
pub mod validation;
pub mod report;
pub mod plan_laws;
pub mod pipeline;
