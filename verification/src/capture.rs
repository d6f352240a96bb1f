//! Geometry of the monitor a capture was taken from.

use vstd::prelude::*;

verus! {

/// A monitor's position on the desktop and its size, in logical pixels.
#[derive(Debug, Clone, Copy, PartialEq, Eq, Structural)]
pub struct MonitorGeom {
    pub x: i32,
    pub y: i32,
    pub width: u32,
    pub height: u32,
}

} // verus!
