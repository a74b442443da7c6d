//! Reduction of a sequence of pixel colors to a small palette.
//!
//! The verified part covers the integer color model, the median-cut
//! quantizer, the choice of initial k-means centers and the palette
//! renderers' text.
use vstd::prelude::*;

pub mod color;
pub mod kmeans;
pub mod median_cutoff;
pub mod parsers;

pub use color::HexColor;
pub use median_cutoff::median_cut;
pub use parsers::{JsonParser, OutputFormat, PalleteParser, SvgParser};

verus! {

/// Why a palette could not be computed.
#[derive(Clone, Copy, Debug, PartialEq, Eq, Structural)]
pub enum PaletteError {
    /// The pixel sequence is empty.
    EmptyInput,
    /// The number of clusters asked for is zero.
    InvalidClusterCount,
}

/// The error that a pixel count and a cluster count give, if any: an empty
/// input is reported before a zero cluster count.
pub open spec fn input_error(pixel_count: nat, k: nat) -> Option<PaletteError> {
    if pixel_count == 0 {
        Some(PaletteError::EmptyInput)
    } else if k == 0 {
        Some(PaletteError::InvalidClusterCount)
    } else {
        None
    }
}

/// Checks the two preconditions shared by both quantizers.
pub fn check_input(pixel_count: usize, k: usize) -> (r: Result<(), PaletteError>)
    ensures
        r is Ok <==> input_error(pixel_count as nat, k as nat) is None,
        r is Err ==> input_error(pixel_count as nat, k as nat) == Some(r->Err_0),
{
    if pixel_count == 0 {
        Err(PaletteError::EmptyInput)
    } else if k == 0 {
        Err(PaletteError::InvalidClusterCount)
    } else {
        Ok(())
    }
}

} // verus!
