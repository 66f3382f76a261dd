use vstd::prelude::*;

verus! {

/// The first scenes: one sphere, or the sphere on its ground, seen through a
/// fixed viewport with one ray per pixel.
#[derive(Clone, Copy, Debug, PartialEq, Eq, Structural)]
pub enum SceneCase {
    RaySphereScene,
    ShadingWithNormalScene,
    HittableObjectsScene,
}

/// The scenes rendered through the camera, with several samples per pixel.
#[derive(Clone, Copy, Debug, PartialEq, Eq, Structural)]
pub enum AdvanceSceneCase {
    AntialiasingScene,
    MaterialScene,
    MetalScene,
    RefractionScene,
}

/// How a ray's color is found.
#[derive(Clone, Copy, Debug, PartialEq, Eq, Structural)]
pub enum Shading {
    /// Red where the ray crosses the lone sphere, the background elsewhere.
    SphereMask,
    /// The lone sphere's surface normal as a color, the background elsewhere.
    SphereNormal,
    /// The nearest surface's normal as a color, the background elsewhere.
    WorldNormal,
    /// Every surface diffuse and half absorbing, followed bounce by bounce.
    Diffuse,
    /// Each surface's own material scatters the ray, bounce by bounce.
    Scatter,
}

/// Which spheres the scene holds.
#[derive(Clone, Copy, Debug, PartialEq, Eq, Structural)]
pub enum WorldLayout {
    /// A sphere on a large ground sphere, both of the default material.
    TwoSpheres,
    /// A diffuse sphere between two metal ones, on diffuse ground.
    MetalSpheres,
    /// A diffuse sphere between a hollow glass one and a metal one, on
    /// diffuse ground.
    GlassSpheres,
}

impl SceneCase {
    pub fn shading(&self) -> (s: Shading)
        ensures
            s == match *self {
                SceneCase::RaySphereScene => Shading::SphereMask,
                SceneCase::ShadingWithNormalScene => Shading::SphereNormal,
                SceneCase::HittableObjectsScene => Shading::WorldNormal,
            },
    {
        match self {
            SceneCase::RaySphereScene => Shading::SphereMask,
            SceneCase::ShadingWithNormalScene => Shading::SphereNormal,
            SceneCase::HittableObjectsScene => Shading::WorldNormal,
        }
    }
}

impl AdvanceSceneCase {
    pub fn shading(&self) -> (s: Shading)
        ensures
            s == match *self {
                AdvanceSceneCase::AntialiasingScene => Shading::WorldNormal,
                AdvanceSceneCase::MaterialScene => Shading::Diffuse,
                AdvanceSceneCase::MetalScene => Shading::Scatter,
                AdvanceSceneCase::RefractionScene => Shading::Scatter,
            },
    {
        match self {
            AdvanceSceneCase::AntialiasingScene => Shading::WorldNormal,
            AdvanceSceneCase::MaterialScene => Shading::Diffuse,
            AdvanceSceneCase::MetalScene => Shading::Scatter,
            AdvanceSceneCase::RefractionScene => Shading::Scatter,
        }
    }

    pub fn layout(&self) -> (w: WorldLayout)
        ensures
            w == match *self {
                AdvanceSceneCase::MetalScene => WorldLayout::MetalSpheres,
                AdvanceSceneCase::RefractionScene => WorldLayout::GlassSpheres,
                _ => WorldLayout::TwoSpheres,
            },
    {
        if *self == AdvanceSceneCase::MetalScene {
            WorldLayout::MetalSpheres
        } else if *self == AdvanceSceneCase::RefractionScene {
            WorldLayout::GlassSpheres
        } else {
            WorldLayout::TwoSpheres
        }
    }
}

} // verus!
