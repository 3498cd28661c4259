//! Attaching to a running Linux container: resolving its init process
//! through a runtime backend, reading its user-namespace id maps and status,
//! and choosing the identity that a shell inside takes on.

use vstd::prelude::*;

pub mod attach;
pub mod container;
pub mod docker;
pub mod idmap;
pub mod session;
pub mod status;
pub mod text;
pub mod types;

verus! {

} // verus!
