//! The configuration surface the process is started with. Parsing the command
//! line itself is left to the binary around the library; these are the plain
//! values it hands over.

use vstd::prelude::*;

verus! {

/// Options common to every action.
#[derive(Debug, Clone, PartialEq)]
pub struct App {
    /// Name of the node whose traces to query, if filtering by service.
    pub service: Option<String>,
    /// URL where the trace service runs, protocol and port included.
    pub url: String,
    /// Maximum number of traces to return.
    pub limit: Option<u64>,
    /// Pretty-print results.
    pub pretty_print: bool,
    /// How far back in time to look for traces, such as `1h` or `1d`.
    pub lookback: Option<String>,
}

/// Options for observing one trace.
#[derive(Debug, Clone, PartialEq)]
pub struct Trace {
    /// Hex string id of the trace to get.
    pub id: String,
}

/// Options for observing many traces.
#[derive(Debug, Clone, PartialEq)]
pub struct AllTraces {
    /// Filter the traces with this pattern.
    pub filter: Option<String>,
}

/// Options for listing the services reporting to the trace agent.
#[derive(Debug, Clone, PartialEq)]
pub struct Services {
    /// Filter the services with this pattern.
    pub filter: Option<String>,
}

/// Options for running trace collection as a daemon at a fixed interval.
#[derive(Debug, Clone, PartialEq)]
pub struct Daemon {
    /// How often to refresh the metrics, in milliseconds.
    pub frequency: Option<u64>,
    /// Port the metrics are exposed at.
    pub port: u64,
    /// Fall back to walking ancestor spans when a tag is missing.
    pub recurse_parents: bool,
    /// Fall back to walking descendant spans when a tag is missing.
    /// Walking descendants is slower than walking ancestors.
    pub recurse_children: bool,
}

/// The port metrics are exposed at when none is given.
pub fn default_port() -> (r: u64)
    ensures
        r == 9186,
{
    9186
}

} // verus!
