//! Delaunay triangulation of a finite planar point set by the incremental
//! Bowyer–Watson algorithm, over exact integer arithmetic.

pub mod boundary;
pub mod error;
pub mod geometry;
pub mod insertion;
pub mod properties;
pub mod triangle;
pub mod triangulation;
