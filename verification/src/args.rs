//! Command-line options of the standalone single-root server.

use vstd::prelude::*;

verus! {

/// Options: the port to listen on and the root path under which blobs land.
#[derive(Clone, Debug)]
pub struct Args {
    pub port: u16,
    pub root: String,
}

} // verus!
