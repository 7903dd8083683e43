use vstd::prelude::*;

verus! {

/// The scaling mode for outlines and corner radii.
#[derive(Debug, Clone, Copy, PartialEq, Eq, Structural, Hash)]
pub enum ScalingMode {
    /// Scales with both local transforms and camera zoom, behaving like physical geometry.
    Geometric,
    /// Stays at a constant screen pixel size, completely unaffected by zoom or transforms.
    Constant,
    /// Scales only with local transforms, remaining unaffected by view scaling.
    WithTransform,
    /// Scales only with view scaling, remaining unaffected by local transforms.
    WithView,
}

impl Default for ScalingMode {
    fn default() -> (m: Self)
        ensures
            m == ScalingMode::Geometric,
    {
        ScalingMode::Geometric
    }
}

} // verus!
