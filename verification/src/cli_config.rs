//! The operator tool's own configuration: where the gateway and the
//! monitoring services live, and how output is displayed. Reading the
//! configuration file and the environment is the caller's concern.

use vstd::prelude::*;

verus! {

/// Configuration of the operator tool.
pub struct Config {
    /// How to reach the gateway.
    pub gateway: GatewayConfig,
    /// Where the monitoring services live.
    pub monitoring: MonitoringConfig,
    /// How output is displayed.
    pub display: DisplayConfig,
}

/// How to reach the gateway.
pub struct GatewayConfig {
    /// Gateway address, detected when absent.
    pub url: Option<String>,
    /// Seconds allowed per request.
    pub timeout_secs: u64,
}

/// Where the monitoring services live.
pub struct MonitoringConfig {
    /// Metrics store address.
    pub prometheus_url: String,
    /// Dashboard address.
    pub grafana_url: String,
    /// Log store address.
    pub loki_url: String,
}

/// How output is displayed.
pub struct DisplayConfig {
    /// Whether output is coloured.
    pub color: bool,
}

/// The default request timeout, in seconds.
pub fn default_timeout() -> (r: u64)
    ensures
        r == 5u64,
{
    5
}

/// The default metrics-store address.
pub fn default_prometheus_url() -> (r: String)
    ensures
        r@ == "http://localhost:9090"@,
{
    String::from_str("http://localhost:9090")
}

/// The default dashboard address.
pub fn default_grafana_url() -> (r: String)
    ensures
        r@ == "http://localhost:3000"@,
{
    String::from_str("http://localhost:3000")
}

/// The default log-store address.
pub fn default_loki_url() -> (r: String)
    ensures
        r@ == "http://localhost:3100"@,
{
    String::from_str("http://localhost:3100")
}

/// Whether output is coloured by default.
pub fn default_color() -> (r: bool)
    ensures
        r,
{
    true
}

impl Default for GatewayConfig {
    /// No configured address, and the default timeout.
    fn default() -> (r: Self)
        ensures
            r.url is None,
            r.timeout_secs == 5u64,
    {
        Self { url: None, timeout_secs: default_timeout() }
    }
}

impl Default for MonitoringConfig {
    /// The default service addresses.
    fn default() -> (r: Self)
        ensures
            r.prometheus_url@ == "http://localhost:9090"@,
            r.grafana_url@ == "http://localhost:3000"@,
            r.loki_url@ == "http://localhost:3100"@,
    {
        Self {
            prometheus_url: default_prometheus_url(),
            grafana_url: default_grafana_url(),
            loki_url: default_loki_url(),
        }
    }
}

impl Default for DisplayConfig {
    /// Coloured output.
    fn default() -> (r: Self)
        ensures
            r.color,
    {
        Self { color: default_color() }
    }
}

impl Default for Config {
    /// All parts at their defaults.
    fn default() -> (r: Self)
        ensures
            r.gateway.url is None,
            r.gateway.timeout_secs == 5u64,
            r.monitoring.prometheus_url@ == "http://localhost:9090"@,
            r.monitoring.grafana_url@ == "http://localhost:3000"@,
            r.monitoring.loki_url@ == "http://localhost:3100"@,
            r.display.color,
    {
        Self {
            gateway: GatewayConfig::default(),
            monitoring: MonitoringConfig::default(),
            display: DisplayConfig::default(),
        }
    }
}

impl Config {
    /// The gateway address, with its fallback.
    pub fn gateway_url(&self) -> (r: &str)
        ensures
            match self.gateway.url {
                Some(ref u) => r@ == u@,
                None => r@ == "http://localhost:8080"@,
            },
    {
        match &self.gateway.url {
            Some(u) => u.as_str(),
            None => "http://localhost:8080",
        }
    }

    /// Seconds allowed per gateway request.
    pub fn gateway_timeout(&self) -> (r: u64)
        ensures
            r == self.gateway.timeout_secs,
    {
        self.gateway.timeout_secs
    }

    /// Whether output is coloured.
    pub fn color_enabled(&self) -> (r: bool)
        ensures
            r == self.display.color,
    {
        self.display.color
    }
}

} // verus!
