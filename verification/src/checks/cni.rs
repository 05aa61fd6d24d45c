//! Health checks of the plugin installation itself: its category label.
//! The checks look at binaries and kernel state and live with the callers.

use vstd::prelude::*;

verus! {

/// Category label of the plugin checks.
pub const CATEGORY: &'static str = "CNI Plugin";

} // verus!
