//! Container-runtime values of the operator tool: what the runtime reports
//! about one container, and the readings taken from it. Talking to the
//! runtime itself is process I/O and lives with the callers.

use vstd::prelude::*;

use crate::text::{ascii_lower, lower_seq, str_eq};

verus! {

/// What the container runtime reports about one container.
pub struct PodmanContainer {
    /// Full container ID.
    pub id: String,
    /// The container's names.
    pub names: Vec<String>,
    /// Image name.
    pub image: String,
    /// Machine-readable state.
    pub state: String,
    /// Human-readable status.
    pub status: String,
    /// Creation timestamp.
    pub created: Option<i64>,
    /// Networks the container joined.
    pub networks: Option<Vec<String>>,
}

impl PodmanContainer {
    /// The short form of the ID: its first twelve characters.
    pub fn short_id(&self) -> (r: &str)
        ensures
            self.id@.len() >= 12 ==> r@ == self.id@.take(12),
            self.id@.len() < 12 ==> r@ == self.id@,
    {
        let n = self.id.as_str().unicode_len();
        if n >= 12 {
            self.id.as_str().substring_char(0, 12)
        } else {
            self.id.as_str()
        }
    }

    /// The primary name: the first one, or empty.
    pub fn name(&self) -> (r: &str)
        ensures
            self.names@.len() > 0 ==> r@ == self.names@[0]@,
            self.names@.len() == 0 ==> r@ =~= Seq::<char>::empty(),
    {
        proof {
            reveal_strlit("");
        }
        if self.names.len() > 0 {
            self.names[0].as_str()
        } else {
            ""
        }
    }

    /// Whether the container is running, whatever the report's letter case.
    pub fn is_running(&self) -> (r: bool)
        ensures
            r == (lower_seq(self.state@) == "running"@),
    {
        let l = ascii_lower(self.state.as_str());
        str_eq(l.as_str(), "running")
    }
}

/// A handle for talking to the container runtime.
pub struct PodmanClient {
}

impl PodmanClient {
    /// A fresh handle.
    pub fn new() -> (r: Self) {
        Self {  }
    }
}

} // verus!
