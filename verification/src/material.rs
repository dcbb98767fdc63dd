//! Surface material tags.
//!
//! A material couples one of these tags with an albedo colour; the tag alone
//! decides how a bounce ray is generated (randomised, normal-biased scatter
//! for `Diffuse`, perfect mirror reflection for `Glossy`). The colour and the
//! bounce math are floating point and live in the front end.

use vstd::prelude::*;

verus! {

/// How a surface scatters an incoming ray.
#[derive(Debug, Clone, Copy, PartialEq, Eq, Structural)]
pub enum MaterialKind {
    /// Perfect mirror reflection.
    Glossy,
    /// Randomised scatter biased toward the surface normal.
    Diffuse,
}

} // verus!
