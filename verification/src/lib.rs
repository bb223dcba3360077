//! Verified core of an on-demand 3D buildings tile service: glb framing and
//! buffer packing, gradient-boosted-tree model checks and tree walking,
//! footprint polygon bookkeeping, terrain raster decoding, and the small
//! pure helpers of the offline height calibrator.

pub mod cities;
pub mod dataset;
pub mod features;
pub mod float_bits;
pub mod fragments;
pub mod gbt;
pub mod glb;
pub mod height_config;
pub mod height_model;
pub mod mesh;
pub mod mvt;
pub mod overture;
pub mod plateau;
pub mod render;
pub mod routes;
pub mod terrain;
pub mod text;
