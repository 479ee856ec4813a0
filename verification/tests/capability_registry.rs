use naveen_ai_host::capabilities::{
    HostCapability, HostCapabilityRegistry, JsonKind, SYSTEM_TELEMETRY_READ,
};

#[test]
fn unknown_capability_is_denied() {
    let registry = HostCapabilityRegistry::new();
    assert!(registry.resolve("unknown.capability", JsonKind::Object).is_err());
}

#[test]
fn telemetry_requires_object_input() {
    let registry = HostCapabilityRegistry::new();
    assert!(registry.resolve(SYSTEM_TELEMETRY_READ, JsonKind::Null).is_err());
}

#[test]
fn telemetry_with_object_input_is_resolved() {
    let registry = HostCapabilityRegistry::default();
    assert_eq!(
        registry.resolve(SYSTEM_TELEMETRY_READ, JsonKind::Object),
        Ok(HostCapability::SystemTelemetry)
    );
    assert_eq!(
        registry.resolve(SYSTEM_TELEMETRY_READ, JsonKind::Array),
        Err("invalid capability input".to_string())
    );
    assert_eq!(
        registry.resolve("x", JsonKind::Object),
        Err("capability is not registered".to_string())
    );
}
