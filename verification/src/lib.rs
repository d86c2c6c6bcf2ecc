//! The exact core of a software rasterizer: everything in the pipeline from
//! clip-space triangles to pixels that is decided on whole numbers.
//!
//! A triangle is classified by the outcodes of its vertices ([`outcode`]),
//! tested against the view volume and clipped plane by plane ([`clip`]),
//! its edges are ordered for scan conversion ([`segment`]), and its
//! fragments are written through a depth test into a render target
//! ([`renderer`], [`frame`]). Vertex and index lists are grouped into
//! triangles by [`assembly`], and [`texture`] reads the texels of an image
//! that repeats in both directions.
//!
//! Single-precision numbers cross the boundary of the library as bit
//! patterns. The library compares them exactly ([`order`]) and does no
//! arithmetic on them: whoever drives it blends positions and attributes,
//! measures edges and shades fragments.
pub mod assembly;
pub mod clip;
pub mod frame;
pub mod order;
pub mod outcode;
pub mod plane;
pub mod renderer;
pub mod segment;
pub mod texture;
pub mod vector;
