//! Screen-recording permission. Only macOS gates screen capture behind a
//! user grant; elsewhere capture is always allowed.

use vstd::prelude::*;

verus! {

/// Why capturing the screen is not allowed.
#[derive(Debug, Clone, Copy, PartialEq, Eq, Structural)]
pub enum PermissionError {
    /// The user has not granted screen recording.
    NotGranted,
}

/// Check that the screen may be captured: always allowed on this platform.
pub fn preflight() -> (r: Result<(), PermissionError>)
    ensures
        r is Ok,
{
    Ok(())
}

} // verus!
