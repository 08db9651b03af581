use vstd::prelude::*;

pub mod analysis;

pub mod codegen;
pub mod conversion_plan;
pub mod detection;
pub mod directives;
pub mod embed;
pub mod instances;
pub mod lean_config;
pub mod leanmodule;
pub mod metadata_scan;
pub mod model;
pub mod resolution;
pub mod surface;
pub mod syntax;
pub mod text;
pub mod version;
pub mod windows_imports;

verus! {
} // verus!
