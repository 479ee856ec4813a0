use naveen_ai_host::security::{
    AuthenticatedSession, CapabilityPolicy, CapabilityRequest, Permission, RiskLevel,
    SecurityDecision, SecurityDenial, SecurityGateway,
};

fn session() -> AuthenticatedSession {
    AuthenticatedSession::new("test-session")
}

fn policy(risk: RiskLevel) -> CapabilityPolicy {
    CapabilityPolicy {
        capability_id: "system.telemetry.read".to_string(),
        permissions: vec![Permission::SystemTelemetryRead],
        risk,
    }
}

fn request() -> CapabilityRequest {
    CapabilityRequest {
        capability_id: "system.telemetry.read".to_string(),
    }
}

#[test]
fn unauthenticated_requests_are_denied() {
    let gateway = SecurityGateway::new(vec![policy(RiskLevel::Low)]);

    assert_eq!(
        gateway.authorize(None, &request(), false),
        SecurityDecision::Deny(SecurityDenial::Unauthenticated)
    );
}

#[test]
fn unregistered_capabilities_are_denied() {
    let gateway = SecurityGateway::new(vec![]);

    assert_eq!(
        gateway.authorize(Some(&session()), &request(), false),
        SecurityDecision::Deny(SecurityDenial::CapabilityNotRegistered)
    );
}

#[test]
fn high_risk_requires_explicit_confirmation() {
    let gateway = SecurityGateway::new(vec![policy(RiskLevel::High)]);

    assert_eq!(
        gateway.authorize(Some(&session()), &request(), false),
        SecurityDecision::RequireConfirmation
    );

    assert_eq!(
        gateway.authorize(Some(&session()), &request(), true),
        SecurityDecision::Allow
    );
}

#[test]
fn registered_low_risk_request_is_permitted() {
    let gateway = SecurityGateway::new(vec![policy(RiskLevel::Low)]);

    assert_eq!(
        gateway.authorize(Some(&session()), &request(), false),
        SecurityDecision::Allow
    );
}

#[test]
fn empty_capability_ids_are_denied() {
    let gateway = SecurityGateway::new(vec![policy(RiskLevel::Low)]);
    let request = CapabilityRequest {
        capability_id: "  ".to_string(),
    };

    assert_eq!(
        gateway.authorize(Some(&session()), &request, false),
        SecurityDecision::Deny(SecurityDenial::EmptyCapabilityId)
    );
}

#[test]
fn caller_cannot_raise_or_lower_host_policy_risk() {
    let gateway = SecurityGateway::new(vec![policy(RiskLevel::High)]);

    assert_eq!(
        gateway.authorize(Some(&session()), &request(), false),
        SecurityDecision::RequireConfirmation
    );
}

#[test]
fn first_matching_policy_decides() {
    let gateway = SecurityGateway::new(vec![policy(RiskLevel::Medium), policy(RiskLevel::High)]);
    assert_eq!(
        gateway.authorize(Some(&session()), &request(), false),
        SecurityDecision::Allow
    );
    assert_eq!(session().session_id(), "test-session");
}

#[test]
fn unauthenticated_is_denied_even_when_confirmed() {
    let gateway = SecurityGateway::new(vec![policy(RiskLevel::High)]);
    assert_eq!(
        gateway.authorize(None, &request(), true),
        SecurityDecision::Deny(SecurityDenial::Unauthenticated)
    );
    let policy = CapabilityPolicy::new("system.telemetry.read", vec![], RiskLevel::Low);
    assert_eq!(policy.capability_id, "system.telemetry.read");
}
