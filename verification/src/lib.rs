//! Geometry, triangulation and editing rules of a rectilinear roof base.
pub mod geometry;
pub mod nodes;
pub mod builder;
pub mod clip;
pub mod faces;
pub mod mesh;
pub mod shape;
pub mod presets;
pub mod edit;
pub mod actions;
pub mod camera;
pub mod ui;
