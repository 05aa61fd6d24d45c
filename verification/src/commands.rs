//! Pure pieces of the operator tool's commands: what each command decides
//! or computes. The surrounding I/O and rendering live with the callers.

pub mod ps;
pub mod status;

use vstd::prelude::*;

verus! {

} // verus!
