//! Output values of the plugin: the result of a provisioning request, with
//! its interfaces, addresses and routes, and the version listing.

use vstd::prelude::*;

verus! {

/// A network interface reported in a result.
pub struct Interface {
    /// Interface name.
    pub name: String,
    /// MAC address, empty when not reported.
    pub mac: String,
    /// Namespace path for container-side interfaces.
    pub sandbox: Option<String>,
}

/// One address binding of a result.
pub struct IpConfig {
    /// Address in CIDR notation.
    pub address: String,
    /// Gateway address.
    pub gateway: Option<String>,
    /// Index into the interfaces list.
    pub interface: Option<usize>,
}

/// One route of a result.
pub struct RouteConfig {
    /// Destination network in CIDR notation.
    pub dst: String,
    /// Gateway address.
    pub gw: Option<String>,
}

/// DNS settings of a result.
pub struct DnsResult {
    /// Nameserver addresses.
    pub nameservers: Option<Vec<String>>,
    /// DNS domain.
    pub domain: Option<String>,
    /// Search domains.
    pub search: Option<Vec<String>>,
    /// Resolver options.
    pub options: Option<Vec<String>>,
}

/// The result of a successful provisioning request.
pub struct CniResult {
    /// Protocol version the result speaks.
    pub cni_version: String,
    /// Interfaces created.
    pub interfaces: Option<Vec<Interface>>,
    /// Addresses assigned.
    pub ips: Option<Vec<IpConfig>>,
    /// Routes configured.
    pub routes: Option<Vec<RouteConfig>>,
    /// DNS settings.
    pub dns: Option<DnsResult>,
}

/// The interfaces of a result as a sequence, an absent list reading as
/// empty.
pub open spec fn interfaces_seq(r: CniResult) -> Seq<Interface> {
    match r.interfaces {
        Some(v) => v@,
        None => Seq::empty(),
    }
}

/// The address bindings of a result as a sequence.
pub open spec fn ips_seq(r: CniResult) -> Seq<IpConfig> {
    match r.ips {
        Some(v) => v@,
        None => Seq::empty(),
    }
}

/// The routes of a result as a sequence.
pub open spec fn routes_seq(r: CniResult) -> Seq<RouteConfig> {
    match r.routes {
        Some(v) => v@,
        None => Seq::empty(),
    }
}

impl CniResult {
    /// An empty result for the given protocol version.
    pub fn new(cni_version: String) -> (r: Self)
        ensures
            r.cni_version == cni_version,
            interfaces_seq(r) == Seq::<Interface>::empty(),
            ips_seq(r) == Seq::<IpConfig>::empty(),
            routes_seq(r) == Seq::<RouteConfig>::empty(),
            r.dns is None,
    {
        Self { cni_version, interfaces: None, ips: None, routes: None, dns: None }
    }

    /// Append an interface to the result.
    pub fn with_interface(self, name: String, mac: String, sandbox: Option<String>) -> (r: Self)
        ensures
            r.cni_version == self.cni_version,
            interfaces_seq(r) == interfaces_seq(self).push(
                (Interface { name, mac, sandbox }),
            ),
            r.ips == self.ips,
            r.routes == self.routes,
            r.dns == self.dns,
    {
        let iface = Interface { name, mac, sandbox };
        let mut out = self;
        match out.interfaces {
            Some(mut v) => {
                v.push(iface);
                out.interfaces = Some(v);
            },
            None => {
                let mut v: Vec<Interface> = Vec::new();
                v.push(iface);
                proof {
                    assert(v@ =~= Seq::<Interface>::empty().push(v@[0]));
                }
                out.interfaces = Some(v);
            },
        }
        out
    }

    /// Append an address binding to the result.
    pub fn with_ip(self, address: String, gateway: Option<String>, interface: usize) -> (r: Self)
        ensures
            r.cni_version == self.cni_version,
            ips_seq(r) == ips_seq(self).push(
                (IpConfig { address, gateway, interface: Some(interface) }),
            ),
            r.interfaces == self.interfaces,
            r.routes == self.routes,
            r.dns == self.dns,
    {
        let ip = IpConfig { address, gateway, interface: Some(interface) };
        let mut out = self;
        match out.ips {
            Some(mut v) => {
                v.push(ip);
                out.ips = Some(v);
            },
            None => {
                let mut v: Vec<IpConfig> = Vec::new();
                v.push(ip);
                proof {
                    assert(v@ =~= Seq::<IpConfig>::empty().push(v@[0]));
                }
                out.ips = Some(v);
            },
        }
        out
    }

    /// Append a route to the result.
    pub fn with_route(self, dst: String, gw: Option<String>) -> (r: Self)
        ensures
            r.cni_version == self.cni_version,
            routes_seq(r) == routes_seq(self).push((RouteConfig { dst, gw })),
            r.interfaces == self.interfaces,
            r.ips == self.ips,
            r.dns == self.dns,
    {
        let route = RouteConfig { dst, gw };
        let mut out = self;
        match out.routes {
            Some(mut v) => {
                v.push(route);
                out.routes = Some(v);
            },
            None => {
                let mut v: Vec<RouteConfig> = Vec::new();
                v.push(route);
                proof {
                    assert(v@ =~= Seq::<RouteConfig>::empty().push(v@[0]));
                }
                out.routes = Some(v);
            },
        }
        out
    }

    /// Set the DNS settings of the result.
    pub fn with_dns(self, dns: DnsResult) -> (r: Self)
        ensures
            r.cni_version == self.cni_version,
            r.dns == Some(dns),
            r.interfaces == self.interfaces,
            r.ips == self.ips,
            r.routes == self.routes,
    {
        let mut out = self;
        out.dns = Some(dns);
        out
    }
}

/// The answer to a version query.
pub struct VersionResult {
    /// Protocol version the plugin speaks.
    pub cni_version: String,
    /// Every protocol version the plugin accepts.
    pub supported_versions: Vec<String>,
}

} // verus!
