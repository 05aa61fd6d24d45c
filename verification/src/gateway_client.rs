//! Gateway answers of the operator tool: the error kinds of a gateway call
//! and the shapes of the status and container listings it answers with.
//! Calling the gateway itself is HTTP work and lives with the callers.

use vstd::prelude::*;

verus! {

/// Failures of a gateway call.
pub enum GatewayError {
    /// The gateway could not be reached.
    ConnectionFailed(String),
    /// The gateway refused or failed the request.
    RequestFailed(String),
    /// The gateway answered something unreadable.
    InvalidResponse(String),
    /// The call ran out of time.
    Timeout,
}

/// The gateway's status answer.
pub struct GatewayStatus {
    /// Service state word.
    pub status: String,
    /// Service name.
    pub service: String,
    /// Deployment stage.
    pub stage: String,
    /// Registry statistics, when reported.
    pub registry: Option<RegistryStats>,
    /// Synchronisation state, when reported.
    pub sync: Option<SyncStatus>,
    /// Escalation statistics, when reported.
    pub escalation: Option<EscalationStats>,
    /// Routing statistics, when reported.
    pub routing: Option<RoutingStats>,
    /// Health-check state, when reported.
    pub healthcheck: Option<HealthcheckStatus>,
}

/// Counts of the containers the registry knows.
#[derive(Default)]
pub struct RegistryStats {
    /// All containers.
    pub total_count: u32,
    /// Containers on this host.
    pub local_count: u32,
    /// Containers on other hosts.
    pub remote_count: u32,
}

/// State of cross-host synchronisation.
#[derive(Default)]
pub struct SyncStatus {
    /// Whether synchronisation is on.
    pub enabled: bool,
    /// When the last synchronisation ran.
    pub last_sync: Option<String>,
    /// How many peers take part.
    pub peer_count: u32,
}

/// Counts of connection escalations.
#[derive(Default)]
pub struct EscalationStats {
    /// All escalations.
    pub total: u32,
    /// Direct connections that succeeded.
    pub p2p_success: u32,
    /// Attempts that fell back to the gateway.
    pub gateway_fallback: u32,
}

/// Counts of routed paths.
#[derive(Default)]
pub struct RoutingStats {
    /// Paths routed directly.
    pub direct_routes: u32,
    /// Paths routed through the gateway.
    pub gateway_routes: u32,
}

/// State of the gateway's own health checking.
#[derive(Default)]
pub struct HealthcheckStatus {
    /// Whether health checking is on.
    pub enabled: bool,
    /// Targets found healthy.
    pub healthy_count: u32,
    /// Targets found unhealthy.
    pub unhealthy_count: u32,
}

/// One container the gateway knows.
pub struct ContainerInfo {
    /// Container ID.
    pub id: String,
    /// Its address.
    pub ip: String,
    /// The host it runs on.
    pub host_id: u8,
    /// Its name, when known.
    pub name: Option<String>,
    /// When it was announced.
    pub registered_at: Option<String>,
}

} // verus!
