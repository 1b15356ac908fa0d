//! The command surface: which of the three operations a run performs. The
//! argument parser that fills these values lives with the binary.

use vstd::prelude::*;

verus! {

/// One invocation's request.
#[derive(Debug, Clone)]
pub struct Cli {
    pub command: Commands,
}

/// The operations offered: the full apply-and-serve loop, a peer lookup, and
/// provisioning without interface changes.
#[derive(Debug, Clone)]
pub enum Commands {
    Run,
    ShowPeer { peers: Vec<String> },
    Generate,
}

} // verus!
