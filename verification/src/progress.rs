//! Phases of a download, as progress reports name them.
use vstd::prelude::*;

verus! {

#[derive(Debug, Clone, Copy, PartialEq, Eq, Structural)]
pub enum Phase {
    Connecting,
    Downloading,
    Finalizing,
    Done,
    Error,
}

} // verus!
