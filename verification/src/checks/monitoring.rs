//! Health checks of the monitoring services: its category label. The
//! checks call the services over HTTP and live with the callers.

use vstd::prelude::*;

verus! {

/// Category label of the monitoring checks.
pub const CATEGORY: &'static str = "Monitoring";

} // verus!
