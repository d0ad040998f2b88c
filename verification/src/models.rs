//! The values that the HTTP API hands out and takes in.

use vstd::prelude::*;

verus! {

/// A managed workload as the API lists it.
#[derive(Debug, Clone)]
pub struct Target {
    /// Workload kind: "Deployment" or "StatefulSet".
    pub kind: String,
    pub name: String,
    pub namespace: String,
    /// spec.replicas (absent when the manifest does not set it — the web UI owns it).
    pub replicas: Option<i64>,
    pub ready_replicas: Option<i64>,
    pub available_replicas: Option<i64>,
    /// Persisted desired state (what the web UI last requested).
    pub desired_replicas: Option<i64>,
    /// The replica count the workload is brought to while it has no persisted
    /// desired state: its default-state label, else the global default.
    pub default_replicas: Option<i64>,
    /// True when the workload carries the selector label.
    pub selected: bool,
    /// Why it was matched (e.g. "label replica-scaler.webui.io/managed=true").
    pub match_reason: String,
    /// "running" | "stopped" | "pending".
    pub state: String,
}

/// The mathematical form of a [`Target`].
pub struct TargetView {
    pub kind: Seq<char>,
    pub name: Seq<char>,
    pub namespace: Seq<char>,
    pub replicas: Option<i64>,
    pub ready_replicas: Option<i64>,
    pub available_replicas: Option<i64>,
    pub desired_replicas: Option<i64>,
    pub default_replicas: Option<i64>,
    pub selected: bool,
    pub match_reason: Seq<char>,
    pub state: Seq<char>,
}

impl View for Target {
    type V = TargetView;

    open spec fn view(&self) -> TargetView {
        TargetView {
            kind: self.kind@,
            name: self.name@,
            namespace: self.namespace@,
            replicas: self.replicas,
            ready_replicas: self.ready_replicas,
            available_replicas: self.available_replicas,
            desired_replicas: self.desired_replicas,
            default_replicas: self.default_replicas,
            selected: self.selected,
            match_reason: self.match_reason@,
            state: self.state@,
        }
    }
}

/// The body of a scale request.
#[derive(Debug, Clone, Copy, PartialEq, Eq, Structural)]
pub struct ScaleRequest {
    /// Clamped to 0 or 1 by the server.
    pub replicas: u8,
}

/// The body of an error answer.
#[derive(Debug, Clone)]
pub struct ErrorResponse {
    pub error: String,
}

} // verus!
