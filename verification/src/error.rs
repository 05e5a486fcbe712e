//! The ways in which a configuration can be refused.

use vstd::prelude::*;

verus! {

/// Why a configuration cannot be rendered. Every one of these is found
/// before any pixel is computed.
#[derive(Clone, Copy, Debug, PartialEq, Eq, Structural)]
pub enum ConfigurationError {
    /// A piece of text that should be a numeral is not one.
    NotANumber,
    /// The colorizer was given without its name or without its parameters.
    MissingColorizer,
    /// The colorizer's name is not that of a strategy.
    UnknownColorizer,
    /// The colorizer was given the wrong number of parameters.
    WrongArity,
    /// The image has no pixels: its width or its height is zero.
    EmptyImage,
    /// The image has more samples than memory can address.
    ImageTooLarge,
    /// The scaling factor is zero.
    ZeroScale,
    /// The animation has no frames.
    NoFrames,
    /// The frame lies beyond the end of the animation.
    FrameOutOfRange,
    /// The number of waves is not a whole number, or is beyond what can be
    /// counted.
    NotACount,
    /// The pattern would be made of no waves at all.
    NoWaves,
    /// There is no worker to render on.
    NoThreads,
}

} // verus!
