use vstd::prelude::*;

verus! {

/// The material that absorbs every ray that reaches it: a surface drawn with it
/// scatters nothing, so it contributes no light of its own.
#[derive(Clone, Copy, Debug, PartialEq, Eq, Structural)]
pub struct DefaultMaterial {}

impl DefaultMaterial {
    pub fn new() -> (r: DefaultMaterial)
        ensures
            r == (DefaultMaterial {}),
    {
        DefaultMaterial {}
    }
}

} // verus!
