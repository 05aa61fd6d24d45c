//! The command protocol: which command an invocation runs, the sanitised
//! echo of unknown commands, the gateway each mode uses, the shape of a
//! provisioning result, the structural checks of a verification request,
//! and the version answer. Reading the environment and serialising the
//! answers is the caller's concern.

use vstd::prelude::*;

use crate::bridge::DEFAULT_GATEWAY;
use crate::config::NetworkConfig;
use crate::error::{CniError, CniErrorCode};
use crate::ip::{format_ip, ip_of_octets, ip_seq, is_ip_seq, lemma_octets_of_assembled, parse_ip};
use crate::ipam::mh_ip;
use crate::result::{
    interfaces_seq, ips_seq, routes_seq, CniResult, Interface, IpConfig, RouteConfig,
    VersionResult,
};
use crate::text::{dec_seq, dec_str, str_eq};

verus! {

/// Protocol version this plugin speaks.
pub const CNI_VERSION: &'static str = "1.0.0";

/// Largest accepted configuration input, in bytes.
pub const MAX_INPUT_SIZE: u64 = 1048576;

/// The commands of the protocol.
#[derive(Clone, Copy, Debug, PartialEq, Eq, Structural)]
pub enum CniCommand {
    /// Provision a container's interface.
    Add,
    /// Tear a container's interface down.
    Del,
    /// Verify a container's provisioning.
    Check,
    /// Report the versions the plugin speaks.
    Version,
    /// Anything else.
    Unknown,
}

/// The command a command word names.
pub open spec fn spec_command_of(s: Seq<char>) -> CniCommand {
    if s == "ADD"@ {
        CniCommand::Add
    } else if s == "DEL"@ {
        CniCommand::Del
    } else if s == "CHECK"@ {
        CniCommand::Check
    } else if s == "VERSION"@ {
        CniCommand::Version
    } else {
        CniCommand::Unknown
    }
}

/// Read the command word of an invocation.
pub fn command_of(s: &str) -> (r: CniCommand)
    ensures
        r == spec_command_of(s@),
{
    if str_eq(s, "ADD") {
        CniCommand::Add
    } else if str_eq(s, "DEL") {
        CniCommand::Del
    } else if str_eq(s, "CHECK") {
        CniCommand::Check
    } else if str_eq(s, "VERSION") {
        CniCommand::Version
    } else {
        CniCommand::Unknown
    }
}

/// A character safe to reflect into an error message.
pub open spec fn is_safe_char(c: char) -> bool {
    ('a' <= c && c <= 'z') || ('A' <= c && c <= 'Z') || ('0' <= c && c <= '9') || c == '-' || c
        == '_'
}

/// The safe characters of a sequence, in order.
pub open spec fn safe_filter(s: Seq<char>) -> Seq<char>
    decreases s.len(),
{
    if s.len() == 0 {
        Seq::empty()
    } else {
        let sub = safe_filter(s.drop_last());
        if is_safe_char(s.last()) {
            sub.push(s.last())
        } else {
            sub
        }
    }
}

/// The sanitised echo of a command word: its first thirty-two characters,
/// everything unsafe dropped.
pub open spec fn sanitized(s: Seq<char>) -> Seq<char> {
    if s.len() <= 32 {
        safe_filter(s)
    } else {
        safe_filter(s.take(32))
    }
}

/// Sanitise a command word for the unknown-command error.
pub fn sanitize_command(s: &str) -> (r: String)
    ensures
        r@ == sanitized(s@),
{
    let n = s.unicode_len();
    let stop: usize = if n > 32 {
        32
    } else {
        n
    };
    let mut out = String::new();
    let mut i: usize = 0;
    while i < stop
        invariant
            i <= stop <= n,
            n == s@.len(),
            out@ == safe_filter(s@.subrange(0, i as int)),
        decreases stop - i,
    {
        let c = s.get_char(i);
        if ('a' <= c && c <= 'z') || ('A' <= c && c <= 'Z') || ('0' <= c && c <= '9') || c == '-'
            || c == '_' {
            let piece = s.substring_char(i, i + 1);
            out.append(piece);
        }
        i = i + 1;
        proof {
            let pre = s@.subrange(0, i - 1);
            let cur = s@.subrange(0, i as int);
            assert(cur.drop_last() =~= pre);
            assert(cur.last() == s@[i - 1]);
            assert(s@.subrange(i - 1, i as int) =~= seq![s@[i - 1]]);
        }
    }
    proof {
        if n <= 32 {
            assert(s@.subrange(0, n as int) =~= s@);
        } else {
            assert(s@.subrange(0, 32) =~= s@.take(32));
        }
    }
    out
}

/// The versions the plugin accepts.
pub fn supported_versions() -> (r: Vec<String>)
    ensures
        r@.len() == 4,
        r@[0]@ == "0.3.0"@,
        r@[1]@ == "0.3.1"@,
        r@[2]@ == "0.4.0"@,
        r@[3]@ == "1.0.0"@,
{
    let mut v: Vec<String> = Vec::new();
    v.push(String::from_str("0.3.0"));
    v.push(String::from_str("0.3.1"));
    v.push(String::from_str("0.4.0"));
    v.push(String::from_str("1.0.0"));
    v
}

/// The answer to a version query: it always carries the current version,
/// and the accepted list always holds it.
pub fn version_result() -> (r: VersionResult)
    ensures
        r.cni_version@ == CNI_VERSION@,
        r.supported_versions@.len() == 4,
        r.supported_versions@[0]@ == "0.3.0"@,
        r.supported_versions@[1]@ == "0.3.1"@,
        r.supported_versions@[2]@ == "0.4.0"@,
        r.supported_versions@[3]@ == "1.0.0"@,
        exists|i: int|
            0 <= i < r.supported_versions@.len() && #[trigger] r.supported_versions@[i]@
                == "1.0.0"@,
{
    let r = VersionResult {
        cni_version: String::from_str(CNI_VERSION),
        supported_versions: supported_versions(),
    };
    proof {
        assert(r.supported_versions@[3]@ == "1.0.0"@);
    }
    r
}

/// The host ID an invocation runs under: the network-level setting, or the
/// address-management override, or none.
pub open spec fn effective_host_id(c: NetworkConfig) -> Option<u8> {
    match c.host_id {
        Some(h) => Some(h),
        None => match c.ipam {
            Some(ic) => ic.host_id,
            None => None,
        },
    }
}

/// Read the effective host ID of a configuration.
pub fn config_host_id(config: &NetworkConfig) -> (r: Option<u8>)
    ensures
        r == effective_host_id(*config),
{
    match config.host_id {
        Some(h) => Some(h),
        None => match &config.ipam {
            Some(ic) => ic.host_id,
            None => None,
        },
    }
}

/// The gateway a provisioning request uses: in multihost mode the `.1`
/// address of the host's subnet; otherwise the configured gateway, which
/// must read as an address; otherwise the default gateway.
pub fn gateway_for(config: &NetworkConfig) -> (r: Result<String, CniError>)
    ensures
        match effective_host_id(*config) {
            Some(h) => r matches Ok(g) && g@ == ip_seq(mh_ip(h, 1)),
            None => match config.ipam {
                Some(ref ic) => match ic.gateway {
                    Some(ref gw) => match r {
                        Ok(g) => g@ == gw@ && is_ip_seq(gw@),
                        Err(e) => !is_ip_seq(gw@) && e.spec_code()
                            == CniErrorCode::InvalidNetworkConfig,
                    },
                    None => r matches Ok(g) && g@ == DEFAULT_GATEWAY@,
                },
                None => r matches Ok(g) && g@ == DEFAULT_GATEWAY@,
            },
        },
{
    match config_host_id(config) {
        Some(h) => {
            proof {
                lemma_octets_of_assembled(10, 100, h as nat, 1);
            }
            let ip: u32 = 10u32 * 0x1000000 + 100u32 * 0x10000 + (h as u32) * 0x100 + 1u32;
            Ok(format_ip(ip))
        },
        None => {
            match &config.ipam {
                Some(ic) => match &ic.gateway {
                    Some(gw) => match parse_ip(gw.as_str()) {
                        Some(_) => Ok(String::from_str(gw.as_str())),
                        None => Err(
                            CniError::new(CniErrorCode::InvalidNetworkConfig, "invalid gateway IP"),
                        ),
                    },
                    None => Ok(String::from_str(DEFAULT_GATEWAY)),
                },
                None => Ok(String::from_str(DEFAULT_GATEWAY)),
            }
        },
    }
}

/// An address with its prefix length, in CIDR notation.
pub fn ip_with_prefix(ip: &str, prefix_len: u8) -> (r: String)
    ensures
        r@ == ip@ + seq!['/'] + dec_seq(prefix_len as nat),
{
    let mut out = String::from_str(ip);
    out.append("/");
    let p = dec_str(prefix_len as u64);
    out.append(p.as_str());
    proof {
        reveal_strlit("/");
        assert(out@ =~= ip@ + seq!['/'] + dec_seq(prefix_len as nat));
    }
    out
}

/// The result of a successful provisioning request: the host-side interface
/// without an address, the container-side interface with its MAC inside its
/// namespace, the allocated address bound to the container side, and a
/// default route through the gateway.
pub fn build_add_result(
    cni_version: &str,
    host_ifname: String,
    ifname: String,
    mac: String,
    netns: String,
    address: String,
    gateway: String,
) -> (r: CniResult)
    ensures
        r.cni_version@ == cni_version@,
        interfaces_seq(r).len() == 2,
        interfaces_seq(r)[0].name == host_ifname,
        interfaces_seq(r)[0].mac@ =~= Seq::<char>::empty(),
        interfaces_seq(r)[0].sandbox is None,
        interfaces_seq(r)[1].name == ifname,
        interfaces_seq(r)[1].mac == mac,
        interfaces_seq(r)[1].sandbox == Some(netns),
        ips_seq(r).len() == 1,
        ips_seq(r)[0].address == address,
        ips_seq(r)[0].gateway matches Some(g) && g == gateway,
        ips_seq(r)[0].interface == Some(1usize),
        routes_seq(r).len() == 1,
        routes_seq(r)[0].dst@ == "0.0.0.0/0"@,
        routes_seq(r)[0].gw matches Some(g) && g == gateway,
        r.dns is None,
{
    let gateway2 = gateway.clone();
    CniResult::new(String::from_str(cni_version)).with_interface(
        host_ifname,
        String::new(),
        None,
    ).with_interface(ifname, mac, Some(netns)).with_ip(address, Some(gateway2), 1).with_route(
        String::from_str("0.0.0.0/0"),
        Some(gateway),
    )
}

/// Whether a teardown request has anything to clean up: without a container
/// ID there is nothing to find, and the request succeeds untouched.
pub fn del_has_work(container_id: &str) -> (r: bool)
    ensures
        r == (container_id@.len() > 0),
{
    container_id.unicode_len() > 0
}

/// The verdict of a verification request: the first missing resource, in
/// the order bridge, host-side interface, allocation, decides the error.
pub fn check_outcome(bridge_exists: bool, veth_exists: bool, has_allocation: bool) -> (r: Result<
    (),
    CniError,
>)
    ensures
        match r {
            Ok(_) => bridge_exists && veth_exists && has_allocation,
            Err(e) => {
                ||| (!bridge_exists && e.spec_code() == CniErrorCode::IoFailure)
                ||| (bridge_exists && !veth_exists && e.spec_code() == CniErrorCode::IoFailure)
                ||| (bridge_exists && veth_exists && !has_allocation && e.spec_code()
                    == CniErrorCode::IpamFailure)
            },
        },
{
    if !bridge_exists {
        return Err(CniError::new(CniErrorCode::IoFailure, "bridge does not exist"));
    }
    if !veth_exists {
        return Err(CniError::new(CniErrorCode::IoFailure, "host veth does not exist"));
    }
    if !has_allocation {
        return Err(CniError::new(CniErrorCode::IpamFailure, "no IP allocation for container"));
    }
    Ok(())
}

} // verus!
