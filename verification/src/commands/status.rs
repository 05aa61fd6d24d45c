//! The status command's pure pieces: one component's display line, the
//! address shown for the gateway, and the line a failed gateway call earns.

use vstd::prelude::*;

use crate::checks::gateway::without_scheme;
use crate::gateway_client::GatewayError;
use crate::text::strip_all_prefix;

verus! {

/// One component's line of the status display.
pub struct ComponentStatus {
    /// Component name.
    pub name: String,
    /// Its state word.
    pub status: String,
    /// Detail shown beside it.
    pub details: String,
}

/// The address shown for the gateway: its URL without the scheme.
pub fn extract_gateway_address(url: &str) -> (r: String)
    ensures
        r@ == without_scheme(url@),
{
    let step = strip_all_prefix(url, "http://");
    strip_all_prefix(step.as_str(), "https://")
}

/// The status line a failed gateway call earns: stopped on a refused
/// connection, timed out on a timeout, and in error otherwise, always
/// naming the gateway's address.
pub fn gateway_error_status(error: &GatewayError, url: &str) -> (r: ComponentStatus)
    ensures
        r.name@ == "Gateway"@,
        match error {
            GatewayError::ConnectionFailed(_) => r.status@ == "Stopped"@,
            GatewayError::Timeout => r.status@ == "Timeout"@,
            GatewayError::RequestFailed(_) => r.status@ == "Error"@,
            GatewayError::InvalidResponse(_) => r.status@ == "Error"@,
        },
        r.details@.len() >= without_scheme(url@).len(),
{
    let address = extract_gateway_address(url);
    let (status, details): (&str, String) = match error {
        GatewayError::ConnectionFailed(_) => {
            let mut d = address;
            d.append(" (connection refused)");
            ("Stopped", d)
        },
        GatewayError::Timeout => {
            let mut d = address;
            d.append(" (timeout)");
            ("Timeout", d)
        },
        GatewayError::RequestFailed(e) => {
            let mut d = address;
            d.append(" (");
            d.append(e.as_str());
            d.append(")");
            ("Error", d)
        },
        GatewayError::InvalidResponse(e) => {
            let mut d = address;
            d.append(" (");
            d.append(e.as_str());
            d.append(")");
            ("Error", d)
        },
    };
    ComponentStatus {
        name: String::from_str("Gateway"),
        status: String::from_str(status),
        details,
    }
}

} // verus!
