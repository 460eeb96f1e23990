//! The verified core of a CPU triangle rasterizer: orientation and bounds
//! decisions for fixed-size vectors and matrices, mesh adjacency and
//! triangle indexing, fixed-point pixel coverage by edge functions, and a
//! minimum-depth buffer.
use vstd::prelude::*;

pub mod algebra;
pub mod err;
pub mod mesh;
pub mod raster;
pub mod zbuffer;

verus! {

} // verus!
