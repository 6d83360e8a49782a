//! Screen capture through the Windows Graphics Capture API.
use vstd::prelude::*;

verus! {

/// The Windows capture source; it holds no state of its own.
pub struct WindowsSource {}

} // verus!
