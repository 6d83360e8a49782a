//! Screen capture through the desktop portal and PipeWire (Linux).
use vstd::prelude::*;

verus! {

/// The PipeWire capture source; it holds no state of its own.
pub struct PipeWireSource {}

} // verus!
