//! Verified core of a small recursive ray tracer.
//!
//! The floating-point geometry (vectors, intersection math, shading) lives in
//! the unverified front end; this library holds the parts whose behaviour can
//! be stated and proved over plain values: the pixel buffer, the packed-pixel
//! colour format, the surface material tags, and the mesh import parser.

pub mod canvas;
pub mod color;
pub mod material;
pub mod mesh;
