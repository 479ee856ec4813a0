use naveen_ai_host::device_fabric::{DeviceFabric, DeviceFabricError, NodeDescriptor, NodeHealth};
use naveen_ai_host::device_identity::{
    format_node_id, validate_node_id, DeviceIdentityError, NODE_ID_PREFIX,
};
use naveen_ai_host::device_security::{
    DeviceRecord, DeviceRegistry, DeviceSecurityError, DeviceTrust,
};
use naveen_ai_host::security::Permission;

#[test]
fn registration_does_not_implicitly_trust_a_device() {
    let mut registry = DeviceRegistry::new();
    registry
        .register(
            DeviceRecord::new("phone-01", DeviceTrust::Pending, &[Permission::NetworkAccess])
                .expect("valid device"),
        )
        .expect("registration succeeds");

    assert_eq!(
        registry.authorize("phone-01", &[Permission::NetworkAccess]),
        Err(DeviceSecurityError::DeviceNotTrusted)
    );
}

#[test]
fn trusted_device_is_limited_to_granted_permissions() {
    let mut registry = DeviceRegistry::new();
    registry
        .register(
            DeviceRecord::new(
                "pi-01",
                DeviceTrust::Trusted,
                &[Permission::SystemTelemetryRead],
            )
            .expect("valid device"),
        )
        .expect("registration succeeds");

    assert_eq!(
        registry.authorize("pi-01", &[Permission::SystemTelemetryRead]),
        Ok(())
    );
    assert_eq!(
        registry.authorize("pi-01", &[Permission::FilesystemWrite]),
        Err(DeviceSecurityError::PermissionNotGranted)
    );
}

#[test]
fn revoked_or_quarantined_devices_are_blocked() {
    let mut registry = DeviceRegistry::new();
    registry
        .register(
            DeviceRecord::new("robot-01", DeviceTrust::Trusted, &[Permission::AudioCapture])
                .expect("valid device"),
        )
        .expect("registration succeeds");

    registry
        .set_trust("robot-01", DeviceTrust::Quarantined)
        .expect("device exists");
    assert_eq!(
        registry.authorize("robot-01", &[Permission::AudioCapture]),
        Err(DeviceSecurityError::DeviceNotTrusted)
    );

    registry
        .set_trust("robot-01", DeviceTrust::Revoked)
        .expect("device exists");
    assert_eq!(
        registry.authorize("robot-01", &[Permission::AudioCapture]),
        Err(DeviceSecurityError::DeviceNotTrusted)
    );
}

#[test]
fn unknown_devices_are_denied() {
    let registry = DeviceRegistry::new();

    assert_eq!(
        registry.authorize("unknown-device", &[Permission::NetworkAccess]),
        Err(DeviceSecurityError::DeviceNotRegistered)
    );
}

#[test]
fn duplicate_registration_is_rejected() {
    let mut registry = DeviceRegistry::new();
    let device = DeviceRecord::new(
        "laptop-01",
        DeviceTrust::Trusted,
        &[Permission::SystemTelemetryRead],
    )
    .expect("valid device");

    registry.register(device.clone()).expect("first registration");
    assert_eq!(
        registry.register(device),
        Err(DeviceSecurityError::DeviceAlreadyRegistered)
    );
}

#[test]
fn empty_device_ids_are_rejected() {
    assert_eq!(
        DeviceRecord::new("   ", DeviceTrust::Pending, &[]),
        Err(DeviceSecurityError::InvalidDeviceId)
    );
}

fn descriptor() -> NodeDescriptor {
    NodeDescriptor::new("host-local", "host", "0.1.0").expect("descriptor")
}

#[test]
fn descriptor_rejects_empty_identity_fields() {
    assert_eq!(
        NodeDescriptor::new("", "host", "0.1.0"),
        Err(DeviceFabricError::InvalidNodeId)
    );
    assert_eq!(
        NodeDescriptor::new("host-local", "", "0.1.0"),
        Err(DeviceFabricError::InvalidNodeType)
    );
    assert_eq!(
        NodeDescriptor::new("host-local", "host", ""),
        Err(DeviceFabricError::InvalidSoftwareVersion)
    );
}

#[test]
fn capabilities_are_advertised_without_hardware_specific_enums() {
    let mut fabric = DeviceFabric::new(descriptor());
    fabric
        .advertise_capability("system.telemetry.read")
        .expect("capability");
    fabric
        .advertise_capability("camera.capture")
        .expect("capability");

    assert_eq!(
        fabric.capabilities(),
        vec!["camera.capture".to_string(), "system.telemetry.read".to_string()]
    );
}

#[test]
fn device_authorization_still_requires_trust_and_permission() {
    let mut fabric = DeviceFabric::new(descriptor());
    fabric
        .enroll_device("pi-01", DeviceTrust::Pending, &[Permission::SystemTelemetryRead])
        .expect("enroll");

    assert_eq!(
        fabric.authorize_device("pi-01", &[Permission::SystemTelemetryRead]),
        Err(DeviceFabricError::InvalidDevice(
            DeviceSecurityError::DeviceNotTrusted
        ))
    );

    fabric
        .set_device_trust("pi-01", DeviceTrust::Trusted)
        .expect("trust");

    assert_eq!(
        fabric.authorize_device("pi-01", &[Permission::SystemTelemetryRead]),
        Ok(())
    );
}

#[test]
fn unknown_device_is_denied_by_default() {
    let fabric = DeviceFabric::new(descriptor());
    assert_eq!(
        fabric.authorize_device("unknown", &[Permission::NetworkAccess]),
        Err(DeviceFabricError::InvalidDevice(
            DeviceSecurityError::DeviceNotRegistered
        ))
    );
}

#[test]
fn generated_identity_has_expected_shape() {
    let node_id = format_node_id(0x0123_4567_89ab_cdef_u128, 4242);
    assert!(node_id.starts_with(NODE_ID_PREFIX));
    assert!(validate_node_id(node_id).is_ok());
}

#[test]
fn invalid_identity_is_rejected() {
    assert_eq!(
        validate_node_id("not-a-node-id".to_string()),
        Err(DeviceIdentityError::InvalidStoredIdentity)
    );
    assert_eq!(
        validate_node_id("node-unsafe id".to_string()),
        Err(DeviceIdentityError::InvalidStoredIdentity)
    );
}

#[test]
fn node_id_is_prefix_timestamp_and_process_in_fixed_width_hex() {
    assert_eq!(
        format_node_id(0xab, 0x1f),
        format!("node-{:032x}-{:08x}", 0xab_u128, 0x1f_u32)
    );
    assert_eq!(
        format_node_id(u128::MAX, u32::MAX),
        format!("node-{}-{}", "f".repeat(32), "f".repeat(8))
    );
}

#[test]
fn node_id_length_and_alphabet_are_enforced() {
    let longest = format!("node-{}", "a".repeat(123));
    assert_eq!(validate_node_id(longest.clone()), Ok(longest));
    assert_eq!(
        validate_node_id(format!("node-{}", "a".repeat(124))),
        Err(DeviceIdentityError::InvalidStoredIdentity)
    );
    assert_eq!(
        validate_node_id("node-é".to_string()),
        Err(DeviceIdentityError::InvalidStoredIdentity)
    );
    assert_eq!(validate_node_id("node-A_b-9".to_string()), Ok("node-A_b-9".to_string()));
}

#[test]
fn fabric_health_and_duplicate_capabilities() {
    let mut fabric = DeviceFabric::new(descriptor());
    assert_eq!(fabric.health(), NodeHealth::Unknown);
    fabric.set_health(NodeHealth::Healthy);
    assert_eq!(fabric.health(), NodeHealth::Healthy);
    fabric.advertise_capability("b.cap").expect("first");
    fabric.advertise_capability("a.cap").expect("second");
    fabric.advertise_capability("b.cap").expect("again");
    assert_eq!(fabric.capabilities(), vec!["a.cap".to_string(), "b.cap".to_string()]);
    assert_eq!(fabric.descriptor().node_id, "host-local");
}

#[test]
fn untrusted_device_is_denied_even_without_permissions_asked() {
    let mut registry = DeviceRegistry::new();
    registry
        .register(DeviceRecord::new("cam-01", DeviceTrust::Pending, &[]).expect("valid"))
        .expect("register");
    assert_eq!(
        registry.authorize("cam-01", &[]),
        Err(DeviceSecurityError::DeviceNotTrusted)
    );
    assert_eq!(
        registry.set_trust("ghost", DeviceTrust::Trusted),
        Err(DeviceSecurityError::DeviceNotRegistered)
    );
    assert!(registry.get("cam-01").is_some());
    assert!(registry.get("ghost").is_none());
}

#[test]
fn blank_capability_ids_are_not_advertised() {
    let mut fabric = DeviceFabric::new(descriptor());
    assert_eq!(
        fabric.advertise_capability("  "),
        Err(DeviceFabricError::InvalidCapabilityId)
    );
    assert!(fabric.capabilities().is_empty());
    assert_eq!(
        fabric.enroll_device(" ", DeviceTrust::Trusted, &[]),
        Err(DeviceFabricError::InvalidDevice(DeviceSecurityError::InvalidDeviceId))
    );
}

#[test]
fn device_records_expose_their_id_and_trust() {
    let record = DeviceRecord::new("cam-02", DeviceTrust::Revoked, &[]).expect("record");
    assert_eq!(record.device_id(), "cam-02");
    assert_eq!(record.trust(), DeviceTrust::Revoked);
}
