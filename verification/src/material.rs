//! The lighting models of a material.

use vstd::prelude::*;

verus! {

/// How the lighting of a material is computed: a trade-off between speed and
/// physical correctness.
#[derive(Debug, Copy, Clone, PartialEq)]
pub enum LightingModel {
    /// Phong lighting model, the fastest to compute.
    Phong,
    /// Blinn lighting model, almost as fast as Phong and with fewer artifacts.
    Blinn,
    /// Cook-Torrance lighting model with the given normal distribution and
    /// geometry functions: the most physically correct and the most costly.
    Cook(NormalDistributionFunction, GeometryFunction),
}

/// The geometry function of a Cook-Torrance lighting model.
#[derive(Debug, Copy, Clone, PartialEq)]
pub enum GeometryFunction {
    /// Smith's method with the Schlick-GGX approximation.
    SmithSchlickGGX,
}

/// The normal distribution function of a Cook-Torrance lighting model.
#[derive(Debug, Copy, Clone, PartialEq)]
pub enum NormalDistributionFunction {
    /// Blinn-Phong distribution.
    Blinn,
    /// Beckmann distribution.
    Beckmann,
    /// Trowbridge-Reitz GGX distribution.
    TrowbridgeReitzGGX,
}

} // verus!
