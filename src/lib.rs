//! Discovery of a sidecar server's port: the marker its output carries, the
//! file it leaves behind, the shared slot that holds the port, and the
//! decisions a supervisor takes as the child's output and life go by.

use vstd::prelude::*;

pub mod lines;
pub mod marker;
pub mod port;
pub mod port_file;
pub mod registry;
pub mod supervisor;

verus! {

} // verus!
