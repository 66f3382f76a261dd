//! The verified core of a sphere ray tracer: the decision taken at each step
//! of a ray's radiance estimate, the scenes' choices of shading and layout,
//! the split of a frame into row bands for worker threads and the
//! reassembly of what they report, and the plain-text PPM encoding of the
//! finished pixels.

pub mod integrator;
pub mod materials;
pub mod ppm;
pub mod render;
pub mod scenes;

pub use integrator::{next_step, PathStep, RayEvent};
pub use materials::DefaultMaterial;
pub use ppm::{encode_ppm, ppm_header, push_pixel, Rgb8};
pub use render::{reassemble, worker_seed, RowBands};
pub use scenes::{AdvanceSceneCase, SceneCase, Shading, WorldLayout};
