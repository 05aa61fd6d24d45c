//! The operator tool's command line: the commands and the arguments each
//! one takes, as plain values. Parsing the actual command line is the
//! caller's concern.

use vstd::prelude::*;

verus! {

/// One invocation of the operator tool.
pub struct Cli {
    /// The chosen command.
    pub command: Commands,
}

/// The operator tool's commands.
pub enum Commands {
    /// Display system status.
    Status(StatusArgs),
    /// Run system diagnostics.
    Doctor(DoctorArgs),
    /// List containers with their addresses.
    Ps(PsArgs),
    /// Show logs of components or containers.
    Logs(LogsArgs),
    /// Upgrade the tool.
    Upgrade(UpgradeArgs),
}

/// Arguments of the status command.
pub struct StatusArgs {
    /// Answer in JSON.
    pub json: bool,
    /// Keep refreshing the display.
    pub watch: bool,
    /// Seconds between refreshes.
    pub interval: u64,
}

/// Arguments of the diagnostics command.
pub struct DoctorArgs {
    /// Answer in JSON.
    pub json: bool,
    /// Only show warnings and failures.
    pub quiet: bool,
    /// Show detail.
    pub verbose: bool,
}

/// Arguments of the listing command.
pub struct PsArgs {
    /// Include stopped containers.
    pub all: bool,
    /// Keep only matching containers.
    pub filter: Option<String>,
    /// Answer in JSON.
    pub json: bool,
    /// Only print container IDs.
    pub quiet: bool,
}

/// Arguments of the logs command.
pub struct LogsArgs {
    /// Component or container to read.
    pub target: String,
    /// How many trailing lines to show.
    pub tail: Option<u32>,
    /// Keep following the log.
    pub follow: bool,
    /// How far back to read.
    pub since: Option<String>,
    /// Keep only matching lines.
    pub grep: Option<String>,
    /// Answer in JSON.
    pub json: bool,
}

/// Arguments of the upgrade command.
pub struct UpgradeArgs {
    /// Only look for updates.
    pub check: bool,
    /// Upgrade to this version instead of the latest.
    pub version: Option<String>,
}

} // verus!
