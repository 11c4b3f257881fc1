//! A small offline path tracer with a verified rendering core.
//!
//! Scalars are fixed-point values: an `i64` holding `SCALE`-ths of a unit.
//! Every arithmetic step is specified exactly over mathematical integers,
//! with truncating division (`tdiv`) and floor square root (`sqrt_floor`)
//! as the rounding model.

pub mod fixed;
pub mod rng;
pub mod vec3;
pub mod ray;
pub mod obj;
pub mod camera;
pub mod image;

use vstd::prelude::*;

verus! {

} // verus!
