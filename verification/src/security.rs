use vstd::prelude::*;

use crate::text::{is_blank, is_blank_spec};

verus! {

/// Version of the host-side security contract, independent of any IPC wire
/// protocol.
pub const SECURITY_CONTRACT_VERSION: u16 = 1;

#[derive(Debug, Clone, Copy, PartialEq, Eq, Hash, Structural)]
pub enum Permission {
    SystemTelemetryRead,
    AudioCapture,
    FilesystemRead,
    FilesystemWrite,
    ProcessExecute,
    NetworkAccess,
}

#[derive(Debug, Clone, Copy, PartialEq, Eq, Structural)]
pub enum RiskLevel {
    Low,
    Medium,
    High,
}

/// Host-owned capability policy. The caller cannot choose its own permissions
/// or risk level; those values come from this policy.
#[derive(Debug, Clone)]
pub struct CapabilityPolicy {
    pub capability_id: String,
    pub permissions: Vec<Permission>,
    pub risk: RiskLevel,
}

impl CapabilityPolicy {
    pub fn new(capability_id: &str, permissions: Vec<Permission>, risk: RiskLevel) -> (p: Self)
        ensures
            p.capability_id@ == capability_id@,
            p.permissions@ == permissions@,
            p.risk == risk,
    {
        CapabilityPolicy { capability_id: capability_id.to_string(), permissions, risk }
    }
}

#[derive(Debug, Clone)]
pub struct CapabilityRequest {
    pub capability_id: String,
}

/// A session that the host has accepted; the credential mechanism that
/// produces it lives elsewhere.
#[derive(Debug, Clone)]
pub struct AuthenticatedSession {
    session_id: String,
}

impl AuthenticatedSession {
    pub closed spec fn spec_session_id(&self) -> Seq<char> {
        self.session_id@
    }

    pub fn new(session_id: &str) -> (s: Self)
        ensures
            s.spec_session_id() == session_id@,
    {
        Self { session_id: session_id.to_string() }
    }

    pub fn session_id(&self) -> (r: &str)
        ensures
            r@ == self.spec_session_id(),
    {
        self.session_id.as_str()
    }
}

#[derive(Debug, Clone, Copy, PartialEq, Eq, Structural)]
pub enum SecurityDenial {
    Unauthenticated,
    EmptyCapabilityId,
    CapabilityNotRegistered,
    HighRiskRequiresConfirmation,
}

#[derive(Debug, Clone, Copy, PartialEq, Eq, Structural)]
pub enum SecurityDecision {
    Allow,
    RequireConfirmation,
    Deny(SecurityDenial),
}

/// The first policy registered for `id`, if any.
pub open spec fn policy_for(policies: Seq<CapabilityPolicy>, id: Seq<char>) -> Option<CapabilityPolicy>
    decreases policies.len(),
{
    if policies.len() == 0 {
        None
    } else if policies[0].capability_id@ == id {
        Some(policies[0])
    } else {
        policy_for(policies.drop_first(), id)
    }
}

/// The decision the gateway owes for a request: authentication first, then a
/// non-blank capability id, then a registered policy, then the confirmation
/// that a high-risk policy demands.
pub open spec fn authorize_spec(
    policies: Seq<CapabilityPolicy>,
    authenticated: bool,
    capability_id: Seq<char>,
    confirmed: bool,
) -> SecurityDecision {
    if !authenticated {
        SecurityDecision::Deny(SecurityDenial::Unauthenticated)
    } else if is_blank_spec(capability_id) {
        SecurityDecision::Deny(SecurityDenial::EmptyCapabilityId)
    } else {
        match policy_for(policies, capability_id) {
            None => SecurityDecision::Deny(SecurityDenial::CapabilityNotRegistered),
            Some(p) => if p.risk == RiskLevel::High && !confirmed {
                SecurityDecision::RequireConfirmation
            } else {
                SecurityDecision::Allow
            },
        }
    }
}

/// Deny-by-default Security Gateway. Policy is host-owned; this layer executes
/// nothing and chooses no credential mechanism.
pub struct SecurityGateway {
    policies: Vec<CapabilityPolicy>,
}

impl SecurityGateway {
    pub closed spec fn spec_policies(&self) -> Seq<CapabilityPolicy> {
        self.policies@
    }

    pub fn new(policies: Vec<CapabilityPolicy>) -> (g: Self)
        ensures
            g.spec_policies() == policies@,
    {
        Self { policies }
    }

    pub fn authorize(
        &self,
        session: Option<&AuthenticatedSession>,
        request: &CapabilityRequest,
        confirmed: bool,
    ) -> (d: SecurityDecision)
        ensures
            d == authorize_spec(
                self.spec_policies(),
                session.is_some(),
                request.capability_id@,
                confirmed,
            ),
    {
        if session.is_none() {
            return SecurityDecision::Deny(SecurityDenial::Unauthenticated);
        }
        if is_blank(request.capability_id.as_str()) {
            return SecurityDecision::Deny(SecurityDenial::EmptyCapabilityId);
        }
        let ghost id = request.capability_id@;
        let n = self.policies.len();
        let mut i: usize = 0;
        assert(self.policies@.subrange(0, n as int) =~= self.policies@);
        while i < n
            invariant
                n == self.policies@.len(),
                i <= n,
                id == request.capability_id@,
                session.is_some(),
                !is_blank_spec(id),
                policy_for(self.policies@, id) == policy_for(self.policies@.subrange(i as int, n as int), id),
            decreases n - i,
        {
            assert(self.policies@.subrange(i as int, n as int).drop_first()
                =~= self.policies@.subrange(i + 1, n as int));
            assert(self.policies@.subrange(i as int, n as int)[0] == self.policies@[i as int]);
            if self.policies[i].capability_id == request.capability_id {
                assert(policy_for(self.policies@, id) == Some(self.policies@[i as int]));
                if self.policies[i].risk == RiskLevel::High && !confirmed {
                    return SecurityDecision::RequireConfirmation;
                }
                return SecurityDecision::Allow;
            }
            i += 1;
        }
        assert(self.policies@.subrange(n as int, n as int).len() == 0);
        SecurityDecision::Deny(SecurityDenial::CapabilityNotRegistered)
    }
}


/// Without an authenticated session every request is denied, whatever the
/// policies, the capability or the confirmation.
pub proof fn lemma_unauthenticated_denied(
    policies: Seq<CapabilityPolicy>,
    capability_id: Seq<char>,
    confirmed: bool,
)
    ensures
        authorize_spec(policies, false, capability_id, confirmed) == SecurityDecision::Deny(
            SecurityDenial::Unauthenticated,
        ),
{
}

/// A capability whose host policy is high risk runs only once confirmed.
pub proof fn lemma_high_risk_needs_confirmation(
    policies: Seq<CapabilityPolicy>,
    capability_id: Seq<char>,
)
    requires
        !is_blank_spec(capability_id),
        policy_for(policies, capability_id) matches Some(p) && p.risk == RiskLevel::High,
    ensures
        authorize_spec(policies, true, capability_id, false) == SecurityDecision::RequireConfirmation,
        authorize_spec(policies, true, capability_id, true) == SecurityDecision::Allow,
{
}

/// Only a capability the host registered can be allowed.
pub proof fn lemma_allowed_only_if_registered(
    policies: Seq<CapabilityPolicy>,
    authenticated: bool,
    capability_id: Seq<char>,
    confirmed: bool,
)
    requires
        authorize_spec(policies, authenticated, capability_id, confirmed) == SecurityDecision::Allow,
    ensures
        authenticated,
        policy_for(policies, capability_id) is Some,
{
}

} // verus!
