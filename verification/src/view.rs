use vstd::prelude::*;

verus! {

/// How a logical view is fitted into a window.
#[derive(Debug, Clone, Copy, PartialEq, Eq, Structural, Hash)]
pub enum ViewMode {
    /// Doesn't apply any scaling, leaving everything as-is.
    Unscaled,
    /// Scales the view to fill the window entirely, ignoring aspect ratio.
    Stretch,
    /// Scales the view uniformly to fit inside the window, preserving aspect ratio.
    /// Empty bars appear on the sides or top/bottom as needed (Letterboxing).
    Letterbox,
    /// Scales the view uniformly to fill the window completely, preserving aspect ratio.
    /// If the aspect ratios differ, the parts of the view that extend beyond the
    /// window boundaries will be cut off (Cropping).
    Crop,
}

impl Default for ViewMode {
    fn default() -> (m: Self)
        ensures
            m == ViewMode::Unscaled,
    {
        ViewMode::Unscaled
    }
}

} // verus!
