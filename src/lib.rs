//! Two-dimensional smoothed particle hydrodynamics in fixed point: a Z-order
//! neighbor index over a uniform grid, a particle store with leapfrog
//! integration, and the symmetric application of pair forces. Lengths are in
//! micrometres and times in microseconds.
use vstd::prelude::*;

pub mod arith;
pub mod morton;
pub mod units;
pub mod neighborhood_search;
pub mod hydroparticles;

verus! {

} // verus!
