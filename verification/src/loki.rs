//! Log-store helpers of the operator tool: its error kinds, one log entry,
//! duration words, and the component-to-job mapping. Querying the log store
//! itself is HTTP work and lives with the callers.

use vstd::prelude::*;

use crate::text::{
    all_digits, ascii_lower, digits_val, lower_seq, parse_dec_bounded, str_eq, trim_spec, trim_str,
};

verus! {

/// Failures of a log-store call.
pub enum LokiError {
    /// The store could not be reached.
    ConnectionFailed(String),
    /// The store refused or failed the request.
    RequestFailed(String),
    /// The store answered something unreadable.
    InvalidResponse(String),
    /// The call ran out of time.
    Timeout,
}

/// One log entry.
pub struct LogEntry {
    /// Nanoseconds since the epoch.
    pub timestamp: i64,
    /// The logged line.
    pub line: String,
    /// The labels the entry carries.
    pub labels: std::collections::HashMap<String, String>,
}

/// Seconds named by a duration unit letter.
pub open spec fn unit_secs(c: char) -> Option<u64> {
    if c == 's' {
        Some(1u64)
    } else if c == 'm' {
        Some(60u64)
    } else if c == 'h' {
        Some(3600u64)
    } else if c == 'd' {
        Some(86400u64)
    } else {
        None
    }
}

/// What a duration word denotes: digits and a unit letter, trimmed, read as
/// that many seconds; nothing when the digits, the unit or the magnitude do
/// not fit.
pub open spec fn spec_parse_duration(s: Seq<char>) -> Option<u64> {
    let t = trim_spec(s);
    if t.len() == 0 {
        None
    } else {
        let num = t.drop_last();
        match unit_secs(t.last()) {
            Some(m) => {
                if num.len() >= 1 && all_digits(num) && digits_val(num) * m <= u64::MAX {
                    Some((digits_val(num) * m) as u64)
                } else {
                    None
                }
            },
            None => None,
        }
    }
}

/// Read a duration word such as `30s`, `5m`, `2h` or `1d` as seconds.
pub fn parse_duration(s: &str) -> (r: Option<u64>)
    ensures
        r == spec_parse_duration(s@),
{
    let (a, b) = trim_str(s);
    if b == a {
        return None;
    }
    let ghost t = trim_spec(s@);
    proof {
        assert(t =~= s@.subrange(a as int, b as int));
        assert(t.last() == s@[b - 1]);
        assert(t.drop_last() =~= s@.subrange(a as int, b - 1));
    }
    let unit = s.get_char(b - 1);
    let m: u64 = if unit == 's' {
        1
    } else if unit == 'm' {
        60
    } else if unit == 'h' {
        3600
    } else if unit == 'd' {
        86400
    } else {
        return None;
    };
    match parse_dec_bounded(s, a, b - 1, u64::MAX) {
        Some(num) => {
            if m != 1 && num > u64::MAX / m {
                proof {
                    let v = digits_val(t.drop_last());
                    assert(v * m > u64::MAX) by (nonlinear_arith)
                        requires
                            v == num,
                            m >= 1,
                            num > u64::MAX / m,
                            u64::MAX / m == ((u64::MAX as u64) / (m as u64)) as nat,
                    ;
                }
                None
            } else {
                proof {
                    let v = digits_val(t.drop_last());
                    assert(v * m <= u64::MAX) by (nonlinear_arith)
                        requires
                            v == num,
                            m >= 1,
                            m == 1 || num <= u64::MAX / m,
                            u64::MAX / m == ((u64::MAX as u64) / (m as u64)) as nat,
                    ;
                }
                Some(num * m)
            }
        },
        None => None,
    }
}

/// The log-store job name a component name maps to.
pub open spec fn spec_component_to_job(s: Seq<char>) -> Option<Seq<char>> {
    let l = lower_seq(s);
    if l == "gateway"@ {
        Some("gateway"@)
    } else if l == "cni"@ {
        Some("flatnet-cni"@)
    } else if l == "prometheus"@ {
        Some("prometheus"@)
    } else if l == "grafana"@ {
        Some("grafana"@)
    } else if l == "loki"@ {
        Some("loki"@)
    } else {
        None
    }
}

/// Map a component name, in any letter case, to its log-store job name.
pub fn component_to_job(component: &str) -> (r: Option<&'static str>)
    ensures
        match r {
            Some(j) => spec_component_to_job(component@) == Some(j@),
            None => spec_component_to_job(component@) is None,
        },
{
    let l = ascii_lower(component);
    if str_eq(l.as_str(), "gateway") {
        Some("gateway")
    } else if str_eq(l.as_str(), "cni") {
        Some("flatnet-cni")
    } else if str_eq(l.as_str(), "prometheus") {
        Some("prometheus")
    } else if str_eq(l.as_str(), "grafana") {
        Some("grafana")
    } else if str_eq(l.as_str(), "loki") {
        Some("loki")
    } else {
        None
    }
}

/// Whether a name is one of the known components.
pub fn is_known_component(name: &str) -> (r: bool)
    ensures
        r == (spec_component_to_job(name@) is Some),
{
    match component_to_job(name) {
        Some(_) => true,
        None => false,
    }
}

} // verus!
