//! Why the configuration of a sampling run is turned down before any cell
//! is computed.

use crate::sortkey::{is_nan, signed_magnitude, INFINITY_BITS};
use vstd::prelude::*;

verus! {

/// Why a configuration cannot be sampled.
#[derive(Clone, Copy, Debug, PartialEq, Eq, Structural)]
pub enum ConfigError {
    /// A side of the grid has no cells.
    InvalidResolution,
    /// The zoom is not a number above zero.
    InvalidZoom,
    /// The divergence threshold is not a number above one.
    InvalidThreshold,
}

/// The bit pattern of the double 1.
pub const ONE_BITS: u64 = 0x3FF0_0000_0000_0000;

/// Whether the double with this bit pattern is a number greater than the
/// non-negative double with the bit pattern `bound`.
pub open spec fn is_above(bits: u64, bound: u64) -> bool {
    !is_nan(bits) && signed_magnitude(bits) > bound
}

/// The first fault of a configuration, if it has one: the resolution is
/// looked at first, then the zoom, then the threshold. Zoom and threshold
/// are doubles, given by their bit patterns.
pub open spec fn config_fault(x_res: u32, y_res: u32, zoom: u64, threshold: u64) -> Option<
    ConfigError,
> {
    if x_res == 0 || y_res == 0 {
        Some(ConfigError::InvalidResolution)
    } else if !is_above(zoom, 0) {
        Some(ConfigError::InvalidZoom)
    } else if !is_above(threshold, ONE_BITS) {
        Some(ConfigError::InvalidThreshold)
    } else {
        None
    }
}

fn above(bits: u64, bound: u64) -> (yes: bool)
    requires
        bound <= INFINITY_BITS,
    ensures
        yes == is_above(bits, bound),
{
    bound < bits && bits <= INFINITY_BITS
}

/// Accepts a configuration with a grid of at least one cell, a zoom above
/// zero and a threshold above one, and names the first fault of any other.
/// Zoom and threshold are doubles, given by their bit patterns.
pub fn check_config(x_res: u32, y_res: u32, zoom: u64, threshold: u64) -> (checked: Result<
    (),
    ConfigError,
>)
    ensures
        checked == match config_fault(x_res, y_res, zoom, threshold) {
            Some(fault) => Err::<(), ConfigError>(fault),
            None => Ok(()),
        },
{
    if x_res == 0 || y_res == 0 {
        Err(ConfigError::InvalidResolution)
    } else if !above(zoom, 0) {
        Err(ConfigError::InvalidZoom)
    } else if !above(threshold, ONE_BITS) {
        Err(ConfigError::InvalidThreshold)
    } else {
        Ok(())
    }
}

} // verus!
