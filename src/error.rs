use vstd::prelude::*;

verus! {

/// Why the palette pipeline could not run on its input.
#[derive(Clone, Copy, Debug, PartialEq, Eq, Structural)]
pub enum PaletteError {
    /// The image holds no fully opaque pixel.
    EmptySampleSet,
    /// Zero clusters were requested.
    InvalidClusterCount,
}

} // verus!
