//! Bridge configuration constants. The kernel-side work of creating and
//! addressing the bridge is netlink I/O and lives with the callers; the
//! values here name the bridge and its default addressing.

use vstd::prelude::*;

verus! {

/// Default bridge interface name.
pub const DEFAULT_BRIDGE_NAME: &'static str = "flatnet-br0";

/// Default gateway address assigned to the bridge.
pub const DEFAULT_GATEWAY: &'static str = "10.87.1.1";

/// Default subnet prefix length.
pub const DEFAULT_PREFIX_LEN: u8 = 24;

/// One kernel operation of the bridge provisioning sequence.
#[derive(Clone, Copy, Debug, PartialEq, Eq, Structural)]
pub enum BridgeAction {
    /// Create the bridge device.
    Create,
    /// Assert the gateway address on the device, an already-present address
    /// counting as success.
    AssignAddress,
    /// Bring the device administratively up.
    BringUp,
}

/// The operations that make a named bridge exist, addressed and up, given
/// whether it already exists: an existing bridge is re-asserted, never
/// recreated.
pub fn ensure_bridge_plan(already_exists: bool) -> (r: Vec<BridgeAction>)
    ensures
        already_exists ==> r@ =~= seq![BridgeAction::AssignAddress, BridgeAction::BringUp],
        !already_exists ==> r@ =~= seq![
            BridgeAction::Create,
            BridgeAction::AssignAddress,
            BridgeAction::BringUp,
        ],
{
    let mut v: Vec<BridgeAction> = Vec::new();
    if !already_exists {
        v.push(BridgeAction::Create);
    }
    v.push(BridgeAction::AssignAddress);
    v.push(BridgeAction::BringUp);
    v
}

} // verus!
