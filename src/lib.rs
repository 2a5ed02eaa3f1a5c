//! A freehand drawing engine: pointer samples become depth-ordered vector
//! strokes, and a raster canvas keeps its image across resize, suspend and
//! resume.
pub mod canvas;
pub mod engine;
pub mod geometry;
pub mod pen;
pub mod render;
pub mod stroke;
