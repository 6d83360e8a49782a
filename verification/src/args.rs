//! The command line of the application.
use vstd::prelude::*;

verus! {

/// Whether the application streams its screen or shows a received stream.
#[derive(Clone, Copy, Debug, PartialEq, Eq, Structural)]
pub enum Mode {
    Client,
    Server,
}

/// Parsed command-line arguments.
#[derive(Clone, Copy, Debug)]
pub struct Args {
    pub mode: Mode,
}

} // verus!
