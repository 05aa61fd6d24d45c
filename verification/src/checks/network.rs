//! Health checks of the host's network state: its category label. The
//! checks query kernel interfaces and live with the callers.

use vstd::prelude::*;

verus! {

/// Category label of the network checks.
pub const CATEGORY: &'static str = "Network";

} // verus!
