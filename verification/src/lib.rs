//! Wave Function Collapse: learns overlapping patterns and their directional
//! compatibility from an example grid, then synthesizes a larger grid in which
//! every local neighborhood matches some neighborhood of the input.

pub mod context;
pub mod coord;
pub mod direction;
pub mod entropy;
pub mod grid;
pub mod laws;
pub mod orientation;
pub mod observer;
pub mod overlapping;
pub mod pattern;
pub mod propagator;
pub mod retry;
pub mod rng;
pub mod run;
pub mod tiled_slice;
pub mod wave;
pub mod wrap;

pub use crate::context::{Context, Observe};
pub use crate::coord::{Coord, Size};
pub use crate::grid::Grid;
pub use crate::direction::{CardinalDirection, CardinalDirectionTable};
pub use crate::orientation::{Orientation, OrientationTable};
pub use crate::overlapping::{
    are_patterns_compatible, are_patterns_compatible_slices, OverlappingPatterns, Pattern,
};
pub use crate::pattern::{GlobalStats, PatternDescription, PatternId, PatternTable, PatternWeight};
pub use crate::tiled_slice::TiledGridSlice;
pub use crate::observer::{ChooseNextCell, CoordEntropy, Observer};
pub use crate::propagator::{PropagateError, Propagator};
pub use crate::retry::{Forever, NumTimes};
pub use crate::run::{
    EnumerateCompatiblePatternWeights, ForbidInterface, ForbidNothing, ForbidPattern,
    ForbidPatternError, NoPatternsWithWeights, RunOwn, WaveCellRef, WaveCellRefWeight,
};
pub use crate::wave::{ChosenPatternIdError, EntropyWithNoise, Wave, WaveCell};
pub use crate::wrap::{Wrap, WrapNone, WrapX, WrapXY, WrapY};
