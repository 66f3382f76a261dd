use vstd::prelude::*;

verus! {

/// What the scene does to a ray that is still followed.
#[derive(Clone, Copy, Debug, PartialEq, Eq, Structural)]
pub enum RayEvent {
    /// The ray leaves the scene without hitting a surface.
    Miss,
    /// The ray hits a surface whose material absorbs it.
    Absorbed,
    /// The ray hits a surface whose material sends it on.
    Scattered,
}

/// What the radiance estimate of a ray becomes.
#[derive(Clone, Copy, Debug, PartialEq, Eq, Structural)]
pub enum PathStep {
    /// Black: the ray's bounce budget is spent, or the ray was absorbed.
    Black,
    /// The background gradient seen along the ray's direction.
    Background,
    /// The attenuation times the estimate of the scattered ray, which is
    /// followed with `depth` bounces left.
    Follow { depth: u32 },
}

/// The step taken for a ray with `depth` bounces left, once the scene has
/// answered with `event`.
pub open spec fn step_after(depth: u32, event: RayEvent) -> PathStep {
    match event {
        RayEvent::Miss => PathStep::Background,
        RayEvent::Absorbed => PathStep::Black,
        RayEvent::Scattered => PathStep::Follow { depth: (depth - 1) as u32 },
    }
}

/// Decides the next step of the estimate of a ray with `depth` bounces left.
/// With no bounce left the ray is black, whatever the scene holds, and the
/// scene is not consulted. Otherwise `probe` tests the ray against the scene
/// (over `[0.001, +infinity)`) and lets the hit material scatter it; the
/// event it reports settles the step.
pub fn next_step<F: FnOnce() -> RayEvent>(depth: u32, probe: F) -> (step: PathStep)
    requires
        depth > 0 ==> probe.requires(()),
    ensures
        depth == 0 ==> step == PathStep::Black,
        depth > 0 ==> exists|event: RayEvent|
            probe.ensures((), event) && step == #[trigger] step_after(depth, event),
{
    if depth == 0 {
        return PathStep::Black;
    }
    let event = probe();
    let step = match event {
        RayEvent::Miss => PathStep::Background,
        RayEvent::Absorbed => PathStep::Black,
        RayEvent::Scattered => PathStep::Follow { depth: depth - 1 },
    };
    assert(step == step_after(depth, event));
    step
}

} // verus!
