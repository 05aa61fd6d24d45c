//! The per-invocation network configuration, as handed to the plugin on its
//! input, with its defaulting rules. Decoding the configuration from JSON
//! text is the caller's concern; the values here are plain.

use vstd::prelude::*;

use crate::bridge::DEFAULT_BRIDGE_NAME;

verus! {

/// Network configuration of one invocation.
pub struct NetworkConfig {
    /// Protocol specification version.
    pub cni_version: String,
    /// Network name, unique on the host.
    pub name: String,
    /// Plugin type, matching the binary name.
    pub plugin_type: String,
    /// Previous result of a chained invocation, carried as opaque text.
    pub prev_result: Option<String>,
    /// Bridge name.
    pub bridge: Option<String>,
    /// MTU for the interfaces.
    pub mtu: Option<u32>,
    /// Whether to masquerade outgoing traffic.
    pub ip_masq: Option<bool>,
    /// Address-management configuration.
    pub ipam: Option<IpamConfig>,
    /// DNS configuration.
    pub dns: Option<DnsConfig>,
    /// Additional arguments, carried as opaque text.
    pub args: Option<String>,
    /// Host ID for multihost allocation.
    pub host_id: Option<u8>,
    /// Registry endpoints for cross-host announcement.
    pub registry_endpoints: Option<Vec<String>>,
    /// Whether the registry is used; defaults to whether endpoints are
    /// present.
    pub registry_enabled: Option<bool>,
}

/// Address-management configuration.
pub struct IpamConfig {
    /// Address-management plugin type.
    pub plugin_type: String,
    /// Subnet in CIDR notation.
    pub subnet: Option<String>,
    /// Gateway address.
    pub gateway: Option<String>,
    /// Routes to configure.
    pub routes: Option<Vec<Route>>,
    /// Address ranges to allocate from.
    pub ranges: Option<Vec<Vec<IpRange>>>,
    /// Host ID override for multihost allocation.
    pub host_id: Option<u8>,
}

/// One route of the configuration.
pub struct Route {
    /// Destination network in CIDR notation.
    pub dst: String,
    /// Gateway address, the subnet gateway when absent.
    pub gw: Option<String>,
}

/// One address range of the configuration.
pub struct IpRange {
    /// Subnet in CIDR notation.
    pub subnet: Option<String>,
    /// First address of the range.
    pub range_start: Option<String>,
    /// Last address of the range.
    pub range_end: Option<String>,
    /// Gateway address.
    pub gateway: Option<String>,
}

/// DNS configuration.
pub struct DnsConfig {
    /// Nameserver addresses.
    pub nameservers: Option<Vec<String>>,
    /// DNS domain.
    pub domain: Option<String>,
    /// Search domains.
    pub search: Option<Vec<String>>,
    /// Resolver options.
    pub options: Option<Vec<String>>,
}

impl NetworkConfig {
    /// The bridge name, with its default.
    pub fn bridge_name(&self) -> (r: &str)
        ensures
            match self.bridge {
                Some(ref b) => r@ == b@,
                None => r@ == DEFAULT_BRIDGE_NAME@,
            },
    {
        match &self.bridge {
            Some(b) => b.as_str(),
            None => DEFAULT_BRIDGE_NAME,
        }
    }

    /// The MTU for created interfaces, fifteen hundred bytes when not
    /// configured.
    pub fn mtu_value(&self) -> (r: u32)
        ensures
            r == match self.mtu {
                Some(m) => m,
                None => 1500u32,
            },
    {
        match self.mtu {
            Some(m) => m,
            None => 1500,
        }
    }

    /// The host ID for multihost allocation, one when not configured.
    pub fn host_id_value(&self) -> (r: u8)
        ensures
            r == match self.host_id {
                Some(h) => h,
                None => 1u8,
            },
    {
        match self.host_id {
            Some(h) => h,
            None => 1,
        }
    }

    /// Whether registry announcement is on: as configured, else exactly
    /// when endpoints are present.
    pub fn is_registry_enabled(&self) -> (r: bool)
        ensures
            r == match self.registry_enabled {
                Some(b) => b,
                None => self.registry_endpoints is Some,
            },
    {
        match self.registry_enabled {
            Some(b) => b,
            None => match &self.registry_endpoints {
                Some(_) => true,
                None => false,
            },
        }
    }

    /// The configured registry endpoints, empty when none are set.
    pub fn registry_endpoints(&self) -> (r: &[String])
        ensures
            match self.registry_endpoints {
                Some(ref v) => r@ == v@,
                None => r@.len() == 0,
            },
    {
        match &self.registry_endpoints {
            Some(v) => v.as_slice(),
            None => &[],
        }
    }
}

} // verus!
