//! The kinds of surface material.
use vstd::prelude::*;

verus! {

/// How a surface scatters light: diffusely, as a (possibly rough) mirror,
/// or as a clear refracting medium.
#[allow(non_camel_case_types)]
#[derive(Clone, Copy, Debug, PartialEq, Eq, Structural)]
pub enum MaterialType {
    LAMBERTIAN,
    METAL,
    DIELECTRIC,
}

} // verus!
