//! The host capabilities that the Core may ask for, and the checks that come
//! before one runs.

use vstd::prelude::*;

use crate::text::str_eq;

verus! {

pub const SYSTEM_TELEMETRY_READ: &'static str = "system.telemetry.read";

/// The shape of a JSON input value, which is all the registry reads of it.
#[derive(Debug, Clone, Copy, PartialEq, Eq, Structural)]
pub enum JsonKind {
    Null,
    Bool,
    Number,
    Text,
    Array,
    Object,
}

/// A capability the host knows how to run.
#[derive(Debug, Clone, Copy, PartialEq, Eq, Structural)]
pub enum HostCapability {
    SystemTelemetry,
}

/// What the registry answers for a capability id and the shape of its input.
pub open spec fn resolve_spec(capability_id: Seq<char>, input: JsonKind) -> Result<
    HostCapability,
    Seq<char>,
> {
    if capability_id == SYSTEM_TELEMETRY_READ@ {
        if input != JsonKind::Object {
            Err("invalid capability input"@)
        } else {
            Ok(HostCapability::SystemTelemetry)
        }
    } else {
        Err("capability is not registered"@)
    }
}

/// The registry serves exactly one capability, and only on an object input:
/// a resolution succeeds precisely for the telemetry id with an object, and
/// then names the telemetry capability; every other input shape is refused
/// for that id as an invalid input.
pub proof fn lemma_resolve_needs_registered_id_and_object(capability_id: Seq<char>, input: JsonKind)
    ensures
        resolve_spec(capability_id, input) is Ok <==> (capability_id == SYSTEM_TELEMETRY_READ@
            && input == JsonKind::Object),
        resolve_spec(capability_id, input) is Ok ==> resolve_spec(capability_id, input)
            == Ok::<HostCapability, Seq<char>>(HostCapability::SystemTelemetry),
        capability_id == SYSTEM_TELEMETRY_READ@ && input != JsonKind::Object ==> resolve_spec(
            capability_id,
            input,
        ) == Err::<HostCapability, Seq<char>>("invalid capability input"@),
{
}

/// The registry of host capabilities.
pub struct HostCapabilityRegistry;

impl HostCapabilityRegistry {
    pub fn new() -> (r: Self) {
        HostCapabilityRegistry
    }

    /// Which capability a request runs: only registered ids are served, and
    /// the telemetry capability takes an object as its input.
    pub fn resolve(&self, capability_id: &str, input: JsonKind) -> (r: Result<HostCapability, String>)
        ensures
            match resolve_spec(capability_id@, input) {
                Ok(c) => r == Ok::<HostCapability, String>(c),
                Err(m) => r matches Err(e) && e@ == m,
            },
    {
        if str_eq(capability_id, SYSTEM_TELEMETRY_READ) {
            if input != JsonKind::Object {
                return Err("invalid capability input".to_owned());
            }
            Ok(HostCapability::SystemTelemetry)
        } else {
            Err("capability is not registered".to_owned())
        }
    }
}

impl Default for HostCapabilityRegistry {
    fn default() -> (r: Self) {
        HostCapabilityRegistry
    }
}

} // verus!
