//! Per-launch challenge/response authentication of the Core process and the
//! sessions it establishes.

use std::collections::VecDeque;
use std::sync::atomic::AtomicBool;
use std::sync::Arc;

use vstd::prelude::*;

use crate::encoding::{
    be_u16, be_u64, hex_encode, hex_spec, length_prefixed, push_bytes, push_raw, push_string,
    push_u16, push_u64, text_field,
};
use crate::keyed::{
    keyed_map, keys_unique, lemma_keyed_at, lemma_keyed_dom, lemma_keyed_len, lemma_keyed_push,
    lemma_keyed_remove, lemma_keyed_update,
};
use crate::text::{bytes_eq, str_eq, utf8_bytes};

verus! {

pub const AUTH_PROTOCOL_VERSION: u16 = 1;
pub const AUTH_LAUNCH_ID_LEN: usize = 16;
pub const AUTH_CHALLENGE_ID_LEN: usize = 16;
pub const AUTH_CHALLENGE_NONCE_LEN: usize = 32;
pub const AUTH_SESSION_ID_LEN: usize = 16;
pub const AUTH_SECRET_LEN: usize = 32;
pub const AUTH_PROOF_LEN: usize = 32;
pub const AUTH_CHALLENGE_TTL_MS: u64 = 30_000;
pub const AUTH_SESSION_TTL_MS: u64 = 600_000;
pub const AUTH_MAX_CLIENT_ID_LEN: usize = 64;
pub const AUTH_MAX_CORRELATION_ID_LEN: usize = 128;
pub const AUTH_MAX_PENDING_CHALLENGES: usize = 64;
pub const AUTH_MAX_AUDIT_EVENTS: usize = 256;

/// The client identity the host expects from its own Core process.
pub const CORE_CLIENT_ID: &'static str = "naveen-ai-core";

/// Domain separator of challenge transcripts: `NAVEEN-AUTH-V1`.
pub open spec fn auth_domain() -> Seq<u8> {
    seq![78u8, 65, 86, 69, 69, 78, 45, 65, 85, 84, 72, 45, 86, 49]
}

/// Domain separator of session-key material: `NAVEEN-SESSION-V1`.
pub open spec fn session_domain() -> Seq<u8> {
    seq![78u8, 65, 86, 69, 69, 78, 45, 83, 69, 83, 83, 73, 79, 78, 45, 86, 49]
}

/// Domain separator of session-message transcripts: `NAVEEN-MESSAGE-V1`.
pub open spec fn message_domain() -> Seq<u8> {
    seq![78u8, 65, 86, 69, 69, 78, 45, 77, 69, 83, 83, 65, 71, 69, 45, 86, 49]
}

#[derive(Debug, Clone, Copy, PartialEq, Eq, Hash)]
pub struct LaunchId([u8; 16]);

impl View for LaunchId {
    type V = Seq<u8>;

    closed spec fn view(&self) -> Seq<u8> {
        self.0@
    }
}

impl LaunchId {
    pub fn from_bytes(bytes: [u8; 16]) -> (r: Self)
        ensures
            r@ == bytes@,
    {
        Self(bytes)
    }

    pub fn as_bytes(&self) -> (r: &[u8; 16])
        ensures
            r@ == self@,
    {
        &self.0
    }
}

#[derive(Debug, Clone, Copy, PartialEq, Eq, Hash)]
pub struct ChallengeId([u8; 16]);

impl View for ChallengeId {
    type V = Seq<u8>;

    closed spec fn view(&self) -> Seq<u8> {
        self.0@
    }
}

impl ChallengeId {
    pub fn from_bytes(bytes: [u8; 16]) -> (r: Self)
        ensures
            r@ == bytes@,
    {
        Self(bytes)
    }

    pub fn as_bytes(&self) -> (r: &[u8; 16])
        ensures
            r@ == self@,
    {
        &self.0
    }
}

#[derive(Debug, Clone, Copy, PartialEq, Eq, Hash)]
pub struct SessionId([u8; 16]);

impl View for SessionId {
    type V = Seq<u8>;

    closed spec fn view(&self) -> Seq<u8> {
        self.0@
    }
}

impl SessionId {
    pub fn from_bytes(bytes: [u8; 16]) -> (r: Self)
        ensures
            r@ == bytes@,
    {
        Self(bytes)
    }

    pub fn as_bytes(&self) -> (r: &[u8; 16])
        ensures
            r@ == self@,
    {
        &self.0
    }

    /// Lower-case hexadecimal form of the id.
    pub fn to_hex(&self) -> (r: String)
        ensures
            r@ == hex_spec(self@),
    {
        hex_encode(&self.0)
    }
}

#[derive(Debug, Clone, PartialEq, Eq)]
pub struct AuthChallenge {
    pub protocol_version: u16,
    pub launch_id: LaunchId,
    pub challenge_id: ChallengeId,
    pub nonce: [u8; 32],
    pub issued_at_ms: u64,
    pub expires_at_ms: u64,
    pub expected_client_id: String,
    pub correlation_id: String,
}

/// An exact copy of a challenge.
pub fn copy_challenge(c: &AuthChallenge) -> (r: AuthChallenge)
    ensures
        r == *c,
{
    AuthChallenge {
        protocol_version: c.protocol_version,
        launch_id: c.launch_id,
        challenge_id: c.challenge_id,
        nonce: c.nonce,
        issued_at_ms: c.issued_at_ms,
        expires_at_ms: c.expires_at_ms,
        expected_client_id: c.expected_client_id.clone(),
        correlation_id: c.correlation_id.clone(),
    }
}

#[derive(Debug, Clone, PartialEq, Eq)]
pub struct ChallengeResponse {
    pub protocol_version: u16,
    pub launch_id: LaunchId,
    pub challenge_id: ChallengeId,
    pub client_id: String,
    pub correlation_id: String,
    pub proof: [u8; 32],
}

#[derive(Debug, Clone, Copy, PartialEq, Eq, Structural)]
pub enum AuthFailureReason {
    UnsupportedProtocolVersion,
    MalformedInput,
    UnknownChallenge,
    ChallengeExpired,
    ChallengeReplayed,
    LaunchIdentityMismatch,
    CorrelationMismatch,
    ClientIdentityMismatch,
    InvalidProof,
    SessionExpired,
    SessionRevoked,
    UnknownSession,
    InvalidSequence,
    ReplayDetected,
    CryptoUnavailable,
    CryptoFailure,
}

#[derive(Debug, Clone, PartialEq, Eq)]
pub enum AuthError {
    UnsupportedProtocolVersion { expected: u16, received: u16 },
    MalformedInput(&'static str),
    UnknownChallenge,
    ChallengeExpired,
    ChallengeReplayed,
    LaunchIdentityMismatch,
    CorrelationMismatch,
    ClientIdentityMismatch,
    InvalidProof,
    SessionExpired,
    SessionRevoked,
    UnknownSession,
    InvalidSequence,
    ReplayDetected,
    CryptoUnavailable,
    CryptoFailure,
}

/// The coarse, secret-free reason that an audit event records for an error.
pub open spec fn audit_reason_spec(e: AuthError) -> AuthFailureReason {
    match e {
        AuthError::UnsupportedProtocolVersion { .. } => AuthFailureReason::UnsupportedProtocolVersion,
        AuthError::MalformedInput(_) => AuthFailureReason::MalformedInput,
        AuthError::UnknownChallenge => AuthFailureReason::UnknownChallenge,
        AuthError::ChallengeExpired => AuthFailureReason::ChallengeExpired,
        AuthError::ChallengeReplayed => AuthFailureReason::ChallengeReplayed,
        AuthError::LaunchIdentityMismatch => AuthFailureReason::LaunchIdentityMismatch,
        AuthError::CorrelationMismatch => AuthFailureReason::CorrelationMismatch,
        AuthError::ClientIdentityMismatch => AuthFailureReason::ClientIdentityMismatch,
        AuthError::InvalidProof => AuthFailureReason::InvalidProof,
        AuthError::SessionExpired => AuthFailureReason::SessionExpired,
        AuthError::SessionRevoked => AuthFailureReason::SessionRevoked,
        AuthError::UnknownSession => AuthFailureReason::UnknownSession,
        AuthError::InvalidSequence => AuthFailureReason::InvalidSequence,
        AuthError::ReplayDetected => AuthFailureReason::ReplayDetected,
        AuthError::CryptoUnavailable => AuthFailureReason::CryptoUnavailable,
        AuthError::CryptoFailure => AuthFailureReason::CryptoFailure,
    }
}

impl AuthError {
    pub fn audit_reason(&self) -> (r: AuthFailureReason)
        ensures
            r == audit_reason_spec(*self),
    {
        match self {
            AuthError::UnsupportedProtocolVersion { .. } => AuthFailureReason::UnsupportedProtocolVersion,
            AuthError::MalformedInput(_) => AuthFailureReason::MalformedInput,
            AuthError::UnknownChallenge => AuthFailureReason::UnknownChallenge,
            AuthError::ChallengeExpired => AuthFailureReason::ChallengeExpired,
            AuthError::ChallengeReplayed => AuthFailureReason::ChallengeReplayed,
            AuthError::LaunchIdentityMismatch => AuthFailureReason::LaunchIdentityMismatch,
            AuthError::CorrelationMismatch => AuthFailureReason::CorrelationMismatch,
            AuthError::ClientIdentityMismatch => AuthFailureReason::ClientIdentityMismatch,
            AuthError::InvalidProof => AuthFailureReason::InvalidProof,
            AuthError::SessionExpired => AuthFailureReason::SessionExpired,
            AuthError::SessionRevoked => AuthFailureReason::SessionRevoked,
            AuthError::UnknownSession => AuthFailureReason::UnknownSession,
            AuthError::InvalidSequence => AuthFailureReason::InvalidSequence,
            AuthError::ReplayDetected => AuthFailureReason::ReplayDetected,
            AuthError::CryptoUnavailable => AuthFailureReason::CryptoUnavailable,
            AuthError::CryptoFailure => AuthFailureReason::CryptoFailure,
        }
    }
}

/// Randomness and HMAC-SHA256 as the authentication layer needs them; the
/// platform or a test harness supplies the implementation.
///
/// `spec_hmac` describes a provider's digests only where `models_hmac`
/// holds. Providers written outside verified code (the platform's native
/// provider, test harnesses) keep the defaults, so that nothing is claimed
/// of their digests.
pub trait AuthCrypto {
    /// The HMAC-SHA256 digest that this provider computes for a key and
    /// message, where `models_hmac` holds.
    open spec fn spec_hmac(&self, key: Seq<u8>, message: Seq<u8>) -> Seq<u8> {
        Seq::empty()
    }

    /// Whether `spec_hmac` describes this provider's digests.
    open spec fn models_hmac(&self) -> bool {
        false
    }

    /// Whether this provider can produce random bytes at all.
    open spec fn spec_has_randomness(&self) -> bool {
        true
    }

    /// The error with which every request for random bytes fails, for a
    /// provider that has none; providers that leave it unset claim nothing.
    open spec fn spec_randomness_error(&self) -> Option<AuthError> {
        None
    }

    /// Whether every request for random bytes succeeds; providers that keep
    /// the default claim nothing.
    open spec fn randomness_never_fails(&self) -> bool {
        false
    }

    fn fill_random(&self, output: &mut [u8]) -> (r: Result<(), AuthError>)
        ensures
            final(output)@.len() == old(output)@.len(),
            r is Ok ==> self.spec_has_randomness(),
            self.spec_randomness_error() matches Some(e) ==> r == Err::<(), AuthError>(e),
            self.randomness_never_fails() ==> r is Ok,
    ;

    /// A provider that models its digests computes them without failing.
    fn hmac_sha256(&self, key: &[u8], message: &[u8]) -> (r: Result<[u8; 32], AuthError>)
        ensures
            self.models_hmac() ==> (r matches Ok(d) && d@ == self.spec_hmac(key@, message@)),
    ;
}

/// The platform crypto provider of builds without a native provider: every
/// operation reports that crypto is unavailable.
#[derive(Clone, Copy, Default)]
pub struct PlatformCrypto;

impl AuthCrypto for PlatformCrypto {
    open spec fn spec_has_randomness(&self) -> bool {
        false
    }

    open spec fn spec_randomness_error(&self) -> Option<AuthError> {
        Some(AuthError::CryptoUnavailable)
    }

    fn fill_random(&self, output: &mut [u8]) -> (r: Result<(), AuthError>)
        ensures
            r == Err::<(), AuthError>(AuthError::CryptoUnavailable),
    {
        Err(AuthError::CryptoUnavailable)
    }

    fn hmac_sha256(&self, key: &[u8], message: &[u8]) -> (r: Result<[u8; 32], AuthError>)
        ensures
            r == Err::<[u8; 32], AuthError>(AuthError::CryptoUnavailable),
    {
        Err(AuthError::CryptoUnavailable)
    }
}

/// A text field is well-formed when its UTF-8 form is non-empty, at most
/// `max_len` bytes long and free of NUL bytes.
pub open spec fn valid_text(s: Seq<char>, max_len: nat) -> bool {
    let b = utf8_bytes(s);
    &&& b.len() > 0
    &&& b.len() <= max_len
    &&& !b.contains(0u8)
}

/// True when `value` is a well-formed text field of at most `max_len` bytes.
pub fn is_valid_text(value: &str, max_len: usize) -> (r: bool)
    ensures
        r == valid_text(value@, max_len as nat),
{
    let bytes = value.as_bytes();
    if bytes.len() == 0 || bytes.len() > max_len {
        return false;
    }
    let mut i: usize = 0;
    while i < bytes.len()
        invariant
            i <= bytes@.len(),
            bytes@ == utf8_bytes(value@),
            0 < bytes@.len() <= max_len,
            forall|j: int| 0 <= j < i ==> bytes@[j] != 0u8,
        decreases bytes@.len() - i,
    {
        if bytes[i] == 0 {
            assert(bytes@[i as int] == 0u8);
            return false;
        }
        i += 1;
    }
    true
}

fn validate_text(value: &str, max_len: usize, field: &'static str) -> (r: Result<(), AuthError>)
    ensures
        r is Ok <==> valid_text(value@, max_len as nat),
        r is Err ==> r == Err::<(), AuthError>(AuthError::MalformedInput(field)),
{
    if !is_valid_text(value, max_len) {
        return Err(AuthError::MalformedInput(field));
    }
    Ok(())
}

/// A challenge's launch and challenge ids are 16 bytes, and its nonce 32.
pub proof fn lemma_id_lengths(c: AuthChallenge)
    ensures
        c.launch_id@.len() == AUTH_LAUNCH_ID_LEN,
        c.challenge_id@.len() == AUTH_CHALLENGE_ID_LEN,
        c.nonce@.len() == AUTH_CHALLENGE_NONCE_LEN,
{
}

/// Canonical bytes of a challenge, over which the client's proof is computed.
pub open spec fn challenge_transcript_spec(c: AuthChallenge) -> Seq<u8> {
    auth_domain() + be_u16(c.protocol_version) + length_prefixed(c.launch_id@) + length_prefixed(
        c.challenge_id@,
    ) + length_prefixed(c.nonce@) + be_u64(c.issued_at_ms) + be_u64(c.expires_at_ms) + text_field(
        c.expected_client_id@,
    ) + text_field(c.correlation_id@)
}

/// Material from which a session key is derived.
pub open spec fn session_key_material_spec(transcript: Seq<u8>, session_id: Seq<u8>) -> Seq<u8> {
    session_domain() + length_prefixed(transcript) + length_prefixed(session_id)
}

/// Canonical bytes of a session message, over which its proof is computed.
pub open spec fn message_transcript_spec(
    protocol_version: u16,
    session_id: Seq<u8>,
    correlation_id: Seq<char>,
    sequence: u64,
    message_digest: Seq<u8>,
) -> Seq<u8> {
    message_domain() + be_u16(protocol_version) + length_prefixed(session_id) + text_field(
        correlation_id,
    ) + be_u64(sequence) + length_prefixed(message_digest)
}

pub fn challenge_transcript(challenge: &AuthChallenge) -> (r: Vec<u8>)
    ensures
        r@ == challenge_transcript_spec(*challenge),
{
    let mut output: Vec<u8> = Vec::with_capacity(256);
    let domain: [u8; 14] = [78, 65, 86, 69, 69, 78, 45, 65, 85, 84, 72, 45, 86, 49];
    assert(domain@ =~= auth_domain());
    push_raw(&mut output, &domain);
    push_u16(&mut output, challenge.protocol_version);
    push_bytes(&mut output, challenge.launch_id.as_bytes());
    push_bytes(&mut output, challenge.challenge_id.as_bytes());
    push_bytes(&mut output, &challenge.nonce);
    push_u64(&mut output, challenge.issued_at_ms);
    push_u64(&mut output, challenge.expires_at_ms);
    push_string(&mut output, challenge.expected_client_id.as_str());
    push_string(&mut output, challenge.correlation_id.as_str());
    assert(output@ =~= challenge_transcript_spec(*challenge));
    output
}

pub fn session_key_material(transcript: &[u8], session_id: &SessionId) -> (r: Vec<u8>)
    ensures
        r@ == session_key_material_spec(transcript@, session_id@),
{
    let mut output: Vec<u8> = Vec::new();
    let domain: [u8; 17] = [78, 65, 86, 69, 69, 78, 45, 83, 69, 83, 83, 73, 79, 78, 45, 86, 49];
    assert(domain@ =~= session_domain());
    push_raw(&mut output, &domain);
    push_bytes(&mut output, transcript);
    push_bytes(&mut output, session_id.as_bytes());
    assert(output@ =~= session_key_material_spec(transcript@, session_id@));
    output
}

pub fn message_transcript(
    protocol_version: u16,
    session_id: &SessionId,
    correlation_id: &str,
    sequence: u64,
    message_digest: &[u8],
) -> (r: Vec<u8>)
    ensures
        r@ == message_transcript_spec(
            protocol_version,
            session_id@,
            correlation_id@,
            sequence,
            message_digest@,
        ),
{
    let mut output: Vec<u8> = Vec::new();
    let domain: [u8; 17] = [78, 65, 86, 69, 69, 78, 45, 77, 69, 83, 83, 65, 71, 69, 45, 86, 49];
    assert(domain@ =~= message_domain());
    push_raw(&mut output, &domain);
    push_u16(&mut output, protocol_version);
    push_bytes(&mut output, session_id.as_bytes());
    push_string(&mut output, correlation_id);
    push_u64(&mut output, sequence);
    push_bytes(&mut output, message_digest);
    assert(output@ =~= message_transcript_spec(
        protocol_version,
        session_id@,
        correlation_id@,
        sequence,
        message_digest@,
    ));
    output
}

/// Compares two 32-byte values without branching on their contents.
pub fn constant_time_eq(left: &[u8; 32], right: &[u8; 32]) -> (r: bool)
    ensures
        r == (left@ == right@),
{
    let mut difference: u8 = 0;
    let mut index: usize = 0;
    while index < 32
        invariant
            index <= 32,
            left@.len() == 32,
            right@.len() == 32,
            (difference == 0) == (forall|j: int| 0 <= j < index ==> left@[j] == right@[j]),
        decreases 32 - index,
    {
        let a = left[index];
        let b = right[index];
        let d = difference;
        assert((d | (a ^ b)) == 0u8 <==> (d == 0u8 && a == b)) by (bit_vector);
        difference = d | (a ^ b);
        index += 1;
    }
    assert(difference == 0 ==> left@ =~= right@);
    difference == 0
}

/// Compares an expected 32-byte value with a slice of any length, in time
/// independent of the contents.
pub fn constant_time_slice_eq(expected: &[u8; 32], actual: &[u8]) -> (r: bool)
    ensures
        r == (expected@ == actual@),
{
    if actual.len() != 32 {
        return false;
    }
    let mut difference: u8 = 0;
    let mut index: usize = 0;
    while index < 32
        invariant
            index <= 32,
            expected@.len() == 32,
            actual@.len() == 32,
            (difference == 0) == (forall|j: int| 0 <= j < index ==> expected@[j] == actual@[j]),
        decreases 32 - index,
    {
        let a = expected[index];
        let b = actual[index];
        let d = difference;
        assert((d | (a ^ b)) == 0u8 <==> (d == 0u8 && a == b)) by (bit_vector);
        difference = d | (a ^ b);
        index += 1;
    }
    assert(difference == 0 ==> expected@ =~= actual@);
    difference == 0
}


/// A digest returned by a crypto provider, by value.
pub open spec fn digest_outcome(digest: Result<[u8; 32], AuthError>) -> Result<Seq<u8>, AuthError> {
    match digest {
        Ok(d) => Ok(d@),
        Err(e) => Err(e),
    }
}

/// What a proof comes to against the digest the provider computed for it:
/// the provider's error, a refusal where the two differ, or acceptance.
pub open spec fn proof_verdict(digest: Result<Seq<u8>, AuthError>, given: Seq<u8>) -> Result<
    (),
    AuthError,
> {
    match digest {
        Err(e) => Err(e),
        Ok(d) => if d == given {
            Ok(())
        } else {
            Err(AuthError::InvalidProof)
        },
    }
}

/// What a session message whose earlier checks passed comes to: its proof
/// against the provider's digest, then its sequence against the last one the
/// session accepted.
pub open spec fn message_verdict(
    digest: Result<Seq<u8>, AuthError>,
    given: Seq<u8>,
    sequence: u64,
    last_sequence: u64,
) -> Result<(), AuthError> {
    match proof_verdict(digest, given) {
        Err(e) => Err(e),
        Ok(()) => if sequence <= last_sequence {
            Err(AuthError::ReplayDetected)
        } else {
            Ok(())
        },
    }
}

/// Judges a proof against the digest that the provider returned for it, in
/// time independent of the proof's contents.
pub fn check_proof(digest: Result<[u8; 32], AuthError>, proof: &[u8]) -> (r: Result<(), AuthError>)
    ensures
        r == proof_verdict(digest_outcome(digest), proof@),
{
    match digest {
        Err(e) => Err(e),
        Ok(expected) => {
            if constant_time_slice_eq(&expected, proof) {
                Ok(())
            } else {
                Err(AuthError::InvalidProof)
            }
        },
    }
}

/// Judges a session message against the digest that the provider returned
/// for it and the last sequence its session accepted.
pub fn check_message(
    digest: Result<[u8; 32], AuthError>,
    proof: &[u8],
    sequence: u64,
    last_sequence: u64,
) -> (r: Result<(), AuthError>)
    ensures
        r == message_verdict(digest_outcome(digest), proof@, sequence, last_sequence),
{
    match check_proof(digest, proof) {
        Err(e) => Err(e),
        Ok(()) => {
            if sequence <= last_sequence {
                Err(AuthError::ReplayDetected)
            } else {
                Ok(())
            }
        },
    }
}

/// `a + b`, saturated at `u64::MAX`.
pub open spec fn sat_add(a: u64, b: u64) -> u64 {
    if a + b > u64::MAX {
        u64::MAX
    } else {
        (a + b) as u64
    }
}

fn saturating_add_u64(a: u64, b: u64) -> (r: u64)
    ensures
        r == sat_add(a, b),
{
    if a > u64::MAX - b {
        u64::MAX
    } else {
        a + b
    }
}

/// A secret key held by the server; never leaves it except as bootstrap
/// material for its own child process.
struct SecretKey([u8; 32]);

impl SecretKey {
    fn new(bytes: [u8; 32]) -> (r: Self)
        ensures
            r.0 == bytes,
    {
        Self(bytes)
    }

    fn as_bytes(&self) -> (r: &[u8; 32])
        ensures
            *r == self.0,
    {
        &self.0
    }
}

struct SessionState {
    session_id: SessionId,
    issued_at_ms: u64,
    expires_at_ms: u64,
    revoked: bool,
    last_sequence: u64,
    session_key: SecretKey,
    /// The revocation flag shared with the caller's handle.
    shared_revoked: Arc<AtomicBool>,
}

/// `Arc::clone`: a second owner of the same revocation flag. Nothing is
/// stated of the result: Verus has no notion of which flag an `Arc` shares.
#[verifier::external_body]
fn share_flag(flag: &Arc<AtomicBool>) -> Arc<AtomicBool> {
    Arc::clone(flag)
}

/// Sets a shared revocation flag, so that every handle on it reads revoked.
fn raise_flag(flag: &AtomicBool) {
    flag.store(true, std::sync::atomic::Ordering::Release);
}

/// Reads a shared revocation flag.
fn flag_raised(flag: &AtomicBool) -> bool {
    flag.load(std::sync::atomic::Ordering::Acquire)
}

impl SessionState {
    fn is_active_at(&self, now_ms: u64) -> (r: bool)
        ensures
            r == (!self.revoked && now_ms < self.expires_at_ms),
    {
        !self.revoked && now_ms < self.expires_at_ms
    }
}

/// What the server knows of an established session.
pub struct SessionView {
    pub issued_at_ms: u64,
    pub expires_at_ms: u64,
    pub revoked: bool,
    pub last_sequence: u64,
    pub key: Seq<u8>,
}

/// A pending or consumed challenge.
pub struct ChallengeView {
    pub challenge: AuthChallenge,
    pub consumed: bool,
}

/// A caller's handle on a session that the server established. The server
/// keeps the session's mutable state (revocation, replay window, key); the
/// handle identifies the session, records its lifetime, and shares the
/// server's revocation flag for the session.
#[derive(Debug, Clone)]
pub struct AuthenticatedSession {
    session_id: SessionId,
    launch_id: LaunchId,
    issued_at_ms: u64,
    expires_at_ms: u64,
    revoked: Arc<AtomicBool>,
}

impl AuthenticatedSession {
    pub closed spec fn spec_session_id(&self) -> Seq<u8> {
        self.session_id@
    }

    pub closed spec fn spec_launch_id(&self) -> Seq<u8> {
        self.launch_id@
    }

    pub closed spec fn spec_issued_at(&self) -> u64 {
        self.issued_at_ms
    }

    pub closed spec fn spec_expires_at(&self) -> u64 {
        self.expires_at_ms
    }

    pub fn session_id(&self) -> (r: SessionId)
        ensures
            r@ == self.spec_session_id(),
    {
        self.session_id
    }

    /// True while the session's lifetime has not run out at `now_ms` and the
    /// issuing server has not revoked it. The revocation flag is shared with
    /// the server through an atomic, whose value Verus does not model: the
    /// contract states the lifetime, and `AuthenticationServer::is_session_active`
    /// states the whole answer over the server's state.
    pub fn is_active_at(&self, now_ms: u64) -> (r: bool)
        ensures
            r ==> now_ms < self.spec_expires_at(),
            now_ms >= self.spec_expires_at() ==> !r,
    {
        if now_ms >= self.expires_at_ms {
            return false;
        }
        !flag_raised(&self.revoked)
    }

    pub fn issued_at_ms(&self) -> (r: u64)
        ensures
            r == self.spec_issued_at(),
    {
        self.issued_at_ms
    }

    pub fn expires_at_ms(&self) -> (r: u64)
        ensures
            r == self.spec_expires_at(),
    {
        self.expires_at_ms
    }
}

/// A session handle that no server issued, with an all-`0xA5` id and a fixed
/// lifetime, for exercising transports and channels in isolation.
pub fn test_session(expires_at_ms: u64) -> (r: AuthenticatedSession)
    ensures
        r.spec_session_id() == Seq::new(16, |i: int| 0xA5u8),
        r.spec_issued_at() == 0,
        r.spec_expires_at() == expires_at_ms,
{
    let r = AuthenticatedSession {
        session_id: SessionId([0xA5u8; 16]),
        launch_id: LaunchId([0u8; 16]),
        issued_at_ms: 0,
        expires_at_ms,
        revoked: Arc::new(AtomicBool::new(false)),
    };
    assert(r.session_id@ =~= Seq::new(16, |i: int| 0xA5u8));
    r
}

#[derive(Debug, Clone, Copy, PartialEq, Eq, Structural)]
pub enum AuthAuditEventType {
    ChallengeIssued,
    AuthenticationSucceeded,
    AuthenticationFailed,
    SessionExpired,
    SessionInvalidated,
    SessionMessageRejected,
}

/// An audit record: coarse metadata only, never nonces, proofs or keys.
#[derive(Debug, Clone, PartialEq, Eq)]
pub struct AuthAuditEvent {
    pub event_type: AuthAuditEventType,
    pub timestamp_ms: u64,
    pub protocol_version: u16,
    pub correlation_id: Option<String>,
    pub session_id: Option<SessionId>,
    pub reason: Option<AuthFailureReason>,
}

pub struct AuditView {
    pub event_type: AuthAuditEventType,
    pub timestamp_ms: u64,
    pub protocol_version: u16,
    pub correlation_id: Option<Seq<char>>,
    pub session_id: Option<Seq<u8>>,
    pub reason: Option<AuthFailureReason>,
}

impl View for AuthAuditEvent {
    type V = AuditView;

    open spec fn view(&self) -> AuditView {
        AuditView {
            event_type: self.event_type,
            timestamp_ms: self.timestamp_ms,
            protocol_version: self.protocol_version,
            correlation_id: match self.correlation_id {
                Some(c) => Some(c@),
                None => None,
            },
            session_id: match self.session_id {
                Some(s) => Some(s@),
                None => None,
            },
            reason: self.reason,
        }
    }
}

/// Appends an event to a log that keeps the latest `AUTH_MAX_AUDIT_EVENTS`.
pub open spec fn push_bounded(log: Seq<AuditView>, e: AuditView) -> Seq<AuditView> {
    if log.len() >= AUTH_MAX_AUDIT_EVENTS {
        log.drop_first().push(e)
    } else {
        log.push(e)
    }
}

/// The correlation id that an audit event may carry: only a well-formed one.
pub open spec fn audited_correlation(c: Seq<char>) -> Option<Seq<char>> {
    if valid_text(c, AUTH_MAX_CORRELATION_ID_LEN as nat) {
        Some(c)
    } else {
        None
    }
}

pub open spec fn issued_event(now_ms: u64, correlation_id: Seq<char>) -> AuditView {
    AuditView {
        event_type: AuthAuditEventType::ChallengeIssued,
        timestamp_ms: now_ms,
        protocol_version: AUTH_PROTOCOL_VERSION,
        correlation_id: Some(correlation_id),
        session_id: None,
        reason: None,
    }
}

pub open spec fn succeeded_event(now_ms: u64, correlation_id: Seq<char>, session_id: Seq<u8>) -> AuditView {
    AuditView {
        event_type: AuthAuditEventType::AuthenticationSucceeded,
        timestamp_ms: now_ms,
        protocol_version: AUTH_PROTOCOL_VERSION,
        correlation_id: Some(correlation_id),
        session_id: Some(session_id),
        reason: None,
    }
}

pub open spec fn failed_event(now_ms: u64, response: ChallengeResponse, e: AuthError) -> AuditView {
    AuditView {
        event_type: AuthAuditEventType::AuthenticationFailed,
        timestamp_ms: now_ms,
        protocol_version: response.protocol_version,
        correlation_id: audited_correlation(response.correlation_id@),
        session_id: None,
        reason: Some(audit_reason_spec(e)),
    }
}

pub open spec fn message_rejected_event(
    now_ms: u64,
    protocol_version: u16,
    correlation_id: Seq<char>,
    session_id: Seq<u8>,
    e: AuthError,
) -> AuditView {
    AuditView {
        event_type: if e == AuthError::SessionExpired {
            AuthAuditEventType::SessionExpired
        } else {
            AuthAuditEventType::SessionMessageRejected
        },
        timestamp_ms: now_ms,
        protocol_version,
        correlation_id: audited_correlation(correlation_id),
        session_id: Some(session_id),
        reason: Some(audit_reason_spec(e)),
    }
}

pub open spec fn invalidated_event(now_ms: u64, session_id: Seq<u8>) -> AuditView {
    AuditView {
        event_type: AuthAuditEventType::SessionInvalidated,
        timestamp_ms: now_ms,
        protocol_version: AUTH_PROTOCOL_VERSION,
        correlation_id: None,
        session_id: Some(session_id),
        reason: Some(AuthFailureReason::SessionRevoked),
    }
}

/// The first check that a challenge response fails, before its proof is
/// examined: protocol, field shape, the challenge it names, launch identity,
/// single use, lifetime, correlation and client identity, in that order.
pub open spec fn completion_precheck(
    challenges: Map<Seq<u8>, ChallengeView>,
    expected_client_id: Seq<char>,
    response: ChallengeResponse,
    now_ms: u64,
) -> Option<AuthError> {
    if response.protocol_version != AUTH_PROTOCOL_VERSION {
        Some(
            AuthError::UnsupportedProtocolVersion {
                expected: AUTH_PROTOCOL_VERSION,
                received: response.protocol_version,
            },
        )
    } else if !valid_text(response.client_id@, AUTH_MAX_CLIENT_ID_LEN as nat) {
        Some(AuthError::MalformedInput("client_id"))
    } else if !valid_text(response.correlation_id@, AUTH_MAX_CORRELATION_ID_LEN as nat) {
        Some(AuthError::MalformedInput("correlation_id"))
    } else if !challenges.contains_key(response.challenge_id@) {
        Some(AuthError::UnknownChallenge)
    } else {
        let state = challenges[response.challenge_id@];
        let c = state.challenge;
        if c.launch_id@ != response.launch_id@ {
            Some(AuthError::LaunchIdentityMismatch)
        } else if state.consumed {
            Some(AuthError::ChallengeReplayed)
        } else if now_ms < c.issued_at_ms || now_ms >= c.expires_at_ms {
            Some(AuthError::ChallengeExpired)
        } else if response.correlation_id@ != c.correlation_id@ {
            Some(AuthError::CorrelationMismatch)
        } else if response.client_id@ != c.expected_client_id@ || response.client_id@
            != expected_client_id {
            Some(AuthError::ClientIdentityMismatch)
        } else {
            None
        }
    }
}

/// A handle names a session of this server when the id is registered with
/// the same lifetime and the handle was issued under this launch.
pub open spec fn handle_registered(
    sessions: Map<Seq<u8>, SessionView>,
    launch_id: Seq<u8>,
    session: AuthenticatedSession,
) -> bool {
    &&& sessions.contains_key(session.spec_session_id())
    &&& sessions[session.spec_session_id()].issued_at_ms == session.spec_issued_at()
    &&& sessions[session.spec_session_id()].expires_at_ms == session.spec_expires_at()
    &&& session.spec_launch_id() == launch_id
}

/// The first check that a session message fails before its proof is
/// examined.
pub open spec fn message_precheck(
    sessions: Map<Seq<u8>, SessionView>,
    launch_id: Seq<u8>,
    session: AuthenticatedSession,
    protocol_version: u16,
    correlation_id: Seq<char>,
    sequence: u64,
    proof_len: nat,
    now_ms: u64,
) -> Option<AuthError> {
    if protocol_version != AUTH_PROTOCOL_VERSION {
        Some(
            AuthError::UnsupportedProtocolVersion {
                expected: AUTH_PROTOCOL_VERSION,
                received: protocol_version,
            },
        )
    } else if !valid_text(correlation_id, AUTH_MAX_CORRELATION_ID_LEN as nat) {
        Some(AuthError::MalformedInput("correlation_id"))
    } else if sequence == 0 {
        Some(AuthError::InvalidSequence)
    } else if proof_len != AUTH_PROOF_LEN {
        Some(AuthError::MalformedInput("proof"))
    } else if !handle_registered(sessions, launch_id, session) {
        Some(AuthError::UnknownSession)
    } else if sessions[session.spec_session_id()].revoked {
        Some(AuthError::SessionRevoked)
    } else if now_ms >= sessions[session.spec_session_id()].expires_at_ms {
        Some(AuthError::SessionExpired)
    } else {
        None
    }
}

/// `after` is `before` less one challenge issued no later than any other,
/// when `before` holds the maximum number of pending challenges; else it is
/// `before`.
pub open spec fn evicts_oldest(before: Map<Seq<u8>, ChallengeView>, after: Map<Seq<u8>, ChallengeView>) -> bool {
    if before.len() >= AUTH_MAX_PENDING_CHALLENGES {
        exists|k: Seq<u8>|
            #![trigger before.remove(k)]
            before.contains_key(k) && (forall|k2: Seq<u8>|
                #[trigger] before.contains_key(k2) ==> before[k].challenge.issued_at_ms
                    <= before[k2].challenge.issued_at_ms) && after == before.remove(k)
    } else {
        after == before
    }
}

/// The challenge that `issue_challenge` hands out for a request at `now_ms`.
pub open spec fn fresh_challenge_fields(
    c: AuthChallenge,
    launch_id: Seq<u8>,
    expected_client_id: Seq<char>,
    correlation_id: Seq<char>,
    now_ms: u64,
) -> bool {
    &&& c.protocol_version == AUTH_PROTOCOL_VERSION
    &&& c.launch_id@ == launch_id
    &&& c.issued_at_ms == now_ms
    &&& c.expires_at_ms == sat_add(now_ms, AUTH_CHALLENGE_TTL_MS)
    &&& c.expected_client_id@ == expected_client_id
    &&& c.correlation_id@ == correlation_id
}

/// Issues challenges, completes them into sessions, and verifies the proofs
/// of session messages.
///
/// `spec_verdict` describes a provider's answers to session messages only
/// where `models_verdict` holds; providers written outside verified code
/// keep the defaults, so that nothing is claimed of their answers.
pub trait AuthenticationProvider {
    /// The provider's own consistency condition; providers written outside
    /// verified code keep the default, which demands nothing.
    open spec fn provider_inv(&self) -> bool {
        true
    }

    /// Whether `spec_verdict` describes this provider's answers.
    open spec fn models_verdict(&self) -> bool {
        false
    }

    /// The answer this provider, in its present state, gives to a session
    /// message, where `models_verdict` holds.
    open spec fn spec_verdict(
        &self,
        session: AuthenticatedSession,
        protocol_version: u16,
        correlation_id: Seq<char>,
        sequence: u64,
        message_digest: Seq<u8>,
        proof: Seq<u8>,
        now_ms: u64,
    ) -> Result<(), AuthError> {
        Err(AuthError::CryptoFailure)
    }

    fn issue_challenge(&mut self, protocol_version: u16, correlation_id: &str, now_ms: u64) -> (r:
        Result<AuthChallenge, AuthError>)
        requires
            old(self).provider_inv(),
        ensures
            final(self).provider_inv(),
            old(self).models_verdict() ==> final(self).models_verdict(),
    ;

    fn complete_challenge(&mut self, response: &ChallengeResponse, now_ms: u64) -> (r: Result<
        AuthenticatedSession,
        AuthError,
    >)
        requires
            old(self).provider_inv(),
        ensures
            final(self).provider_inv(),
            old(self).models_verdict() ==> final(self).models_verdict(),
    ;

    fn verify_session_message(
        &mut self,
        session: &AuthenticatedSession,
        protocol_version: u16,
        correlation_id: &str,
        sequence: u64,
        message_digest: &[u8],
        proof: &[u8],
        now_ms: u64,
    ) -> (r: Result<(), AuthError>)
        requires
            old(self).provider_inv(),
        ensures
            final(self).provider_inv(),
            old(self).models_verdict() ==> final(self).models_verdict(),
            old(self).models_verdict() ==> r == old(self).spec_verdict(
                *session,
                protocol_version,
                correlation_id@,
                sequence,
                message_digest@,
                proof@,
                now_ms,
            ),
    ;

    fn invalidate_session(&mut self, session: &AuthenticatedSession, now_ms: u64) -> (r: bool)
        requires
            old(self).provider_inv(),
        ensures
            final(self).provider_inv(),
            old(self).models_verdict() ==> final(self).models_verdict(),
    ;

    fn invalidate_all_sessions(&mut self, now_ms: u64)
        requires
            old(self).provider_inv(),
        ensures
            final(self).provider_inv(),
            old(self).models_verdict() ==> final(self).models_verdict(),
    ;
}

/// The answer a server gives to a session message: the first check that it
/// fails, else its proof against the session key's digest of the message
/// transcript and its sequence against the last one accepted.
pub open spec fn server_verdict<C: AuthCrypto>(
    sessions: Map<Seq<u8>, SessionView>,
    launch_id: Seq<u8>,
    crypto: C,
    session: AuthenticatedSession,
    protocol_version: u16,
    correlation_id: Seq<char>,
    sequence: u64,
    message_digest: Seq<u8>,
    proof: Seq<u8>,
    now_ms: u64,
) -> Result<(), AuthError> {
    match message_precheck(
        sessions,
        launch_id,
        session,
        protocol_version,
        correlation_id,
        sequence,
        proof.len(),
        now_ms,
    ) {
        Some(e) => Err(e),
        None => {
            let sv = sessions[session.spec_session_id()];
            message_verdict(
                Ok(
                    crypto.spec_hmac(
                        sv.key,
                        message_transcript_spec(
                            protocol_version,
                            session.spec_session_id(),
                            correlation_id,
                            sequence,
                            message_digest,
                        ),
                    ),
                ),
                proof,
                sequence,
                sv.last_sequence,
            )
        },
    }
}

/// A session view once revoked.
pub open spec fn revoked_view(v: SessionView) -> SessionView {
    SessionView { revoked: true, ..v }
}

/// Whether a session is usable at `now_ms`.
pub open spec fn session_active(v: SessionView, now_ms: u64) -> bool {
    !v.revoked && now_ms < v.expires_at_ms
}

/// The audit log after revoking the sessions `ids` in order: one
/// invalidation record for each session that was still active.
pub open spec fn invalidation_log(
    log: Seq<AuditView>,
    ids: Seq<Seq<u8>>,
    sessions: Map<Seq<u8>, SessionView>,
    now_ms: u64,
) -> Seq<AuditView>
    decreases ids.len(),
{
    if ids.len() == 0 {
        log
    } else {
        let prev = invalidation_log(log, ids.drop_last(), sessions, now_ms);
        if session_active(sessions[ids.last()], now_ms) {
            push_bounded(prev, invalidated_event(now_ms, ids.last()))
        } else {
            prev
        }
    }
}

struct ChallengeState {
    challenge: AuthChallenge,
    consumed: bool,
}

spec fn challenge_key() -> spec_fn(ChallengeState) -> Seq<u8> {
    |c: ChallengeState| c.challenge.challenge_id@
}

spec fn challenge_val() -> spec_fn(ChallengeState) -> ChallengeView {
    |c: ChallengeState| ChallengeView { challenge: c.challenge, consumed: c.consumed }
}

spec fn session_key() -> spec_fn(SessionState) -> Seq<u8> {
    |s: SessionState| s.session_id@
}

spec fn session_val() -> spec_fn(SessionState) -> SessionView {
    |s: SessionState|
        SessionView {
            issued_at_ms: s.issued_at_ms,
            expires_at_ms: s.expires_at_ms,
            revoked: s.revoked,
            last_sequence: s.last_sequence,
            key: s.session_key.0@,
        }
}


/// The authentication server of one host launch: a per-launch identity and
/// secret, pending challenges, established sessions and a bounded audit log.
pub struct AuthenticationServer<C: AuthCrypto = PlatformCrypto> {
    crypto: C,
    launch_id: LaunchId,
    launch_secret: SecretKey,
    expected_client_id: String,
    challenges: Vec<ChallengeState>,
    sessions: Vec<SessionState>,
    audit_events: VecDeque<AuthAuditEvent>,
}

impl<C: AuthCrypto> AuthenticationServer<C> {
    pub closed spec fn wf(&self) -> bool {
        &&& keys_unique(self.challenges@, challenge_key())
        &&& keys_unique(self.sessions@, session_key())
        &&& self.challenges@.len() <= AUTH_MAX_PENDING_CHALLENGES
        &&& self.audit_events@.len() <= AUTH_MAX_AUDIT_EVENTS
        &&& valid_text(self.expected_client_id@, AUTH_MAX_CLIENT_ID_LEN as nat)
        &&& forall|j: int|
            0 <= j < self.challenges@.len() ==> {
                &&& (#[trigger] self.challenges@[j]).challenge.expected_client_id@
                    == self.expected_client_id@
                &&& self.challenges@[j].challenge.launch_id@ == self.launch_id@
            }
    }

    /// Every pending challenge was issued under this server's launch for its
    /// expected client.
    pub proof fn lemma_challenges_bound_to_server(&self, id: Seq<u8>)
        requires
            self.wf(),
            self.challenge_map().contains_key(id),
        ensures
            self.challenge_map()[id].challenge.expected_client_id@ == self.spec_client_id(),
            self.challenge_map()[id].challenge.launch_id@ == self.spec_launch_id(),
    {
        lemma_keyed_dom(self.challenges@, challenge_key(), challenge_val(), id);
        let j = choose|j: int|
            0 <= j < self.challenges@.len() && (challenge_key())(#[trigger] self.challenges@[j])
                == id;
        lemma_keyed_at(self.challenges@, challenge_key(), challenge_val(), j);
    }

    pub closed spec fn spec_crypto(&self) -> C {
        self.crypto
    }

    pub closed spec fn spec_launch_id(&self) -> Seq<u8> {
        self.launch_id@
    }

    pub closed spec fn spec_secret(&self) -> Seq<u8> {
        self.launch_secret.0@
    }

    pub closed spec fn spec_client_id(&self) -> Seq<char> {
        self.expected_client_id@
    }

    /// Pending and consumed challenges by challenge id.
    pub closed spec fn challenge_map(&self) -> Map<Seq<u8>, ChallengeView> {
        keyed_map(self.challenges@, challenge_key(), challenge_val())
    }

    /// Established sessions by session id.
    pub closed spec fn session_map(&self) -> Map<Seq<u8>, SessionView> {
        keyed_map(self.sessions@, session_key(), session_val())
    }

    /// Session ids in the order in which the server walks them.
    pub closed spec fn session_order(&self) -> Seq<Seq<u8>> {
        self.sessions@.map_values(|s: SessionState| s.session_id@)
    }

    pub closed spec fn audit(&self) -> Seq<AuditView> {
        self.audit_events@.map_values(|e: AuthAuditEvent| e@)
    }

    /// Everything but the audit log is as in `other`.
    closed spec fn same_state(&self, other: &Self) -> bool {
        &&& self.crypto == other.crypto
        &&& self.launch_id == other.launch_id
        &&& self.launch_secret.0 == other.launch_secret.0
        &&& self.expected_client_id == other.expected_client_id
        &&& self.challenges@ == other.challenges@
        &&& self.sessions@ == other.sessions@
    }

    pub fn with_crypto(crypto: C, expected_client_id: &str) -> (r: Result<Self, AuthError>)
        ensures
            !valid_text(expected_client_id@, AUTH_MAX_CLIENT_ID_LEN as nat) ==> r == Err::<
                Self,
                AuthError,
            >(AuthError::MalformedInput("client_id")),
            r is Ok ==> crypto.spec_has_randomness(),
            valid_text(expected_client_id@, AUTH_MAX_CLIENT_ID_LEN as nat) ==> (
            crypto.spec_randomness_error() matches Some(e) ==> r == Err::<Self, AuthError>(e)),
            valid_text(expected_client_id@, AUTH_MAX_CLIENT_ID_LEN as nat)
                && crypto.randomness_never_fails() ==> r is Ok,
            r matches Ok(s) ==> {
                &&& s.wf()
                &&& s.spec_crypto() == crypto
                &&& s.spec_client_id() == expected_client_id@
                &&& s.challenge_map() == Map::<Seq<u8>, ChallengeView>::empty()
                &&& s.session_map() == Map::<Seq<u8>, SessionView>::empty()
                &&& s.session_order() == Seq::<Seq<u8>>::empty()
                &&& s.audit() == Seq::<AuditView>::empty()
                &&& s.spec_launch_id().len() == AUTH_LAUNCH_ID_LEN
                &&& s.spec_secret().len() == AUTH_SECRET_LEN
            },
    {
        validate_text(expected_client_id, AUTH_MAX_CLIENT_ID_LEN, "client_id")?;

        let mut launch_id = [0u8; 16];
        match crypto.fill_random(&mut launch_id) {
            Ok(()) => {},
            Err(e) => return Err(e),
        }
        let mut launch_secret = [0u8; 32];
        match crypto.fill_random(&mut launch_secret) {
            Ok(()) => {},
            Err(e) => return Err(e),
        }
        let s = Self {
            crypto,
            launch_id: LaunchId::from_bytes(launch_id),
            launch_secret: SecretKey::new(launch_secret),
            expected_client_id: expected_client_id.to_string(),
            challenges: Vec::new(),
            sessions: Vec::new(),
            audit_events: VecDeque::new(),
        };
        assert(s.audit() =~= Seq::<AuditView>::empty());
        assert(s.session_order() =~= Seq::<Seq<u8>>::empty());
        Ok(s)
    }

    pub fn launch_id(&self) -> (r: LaunchId)
        ensures
            r@ == self.spec_launch_id(),
    {
        self.launch_id
    }

    pub fn expected_client_id(&self) -> (r: &str)
        ensures
            r@ == self.spec_client_id(),
    {
        self.expected_client_id.as_str()
    }

    /// The per-launch secret, for delivery to the Core process over its
    /// private bootstrap channel.
    pub fn bootstrap_secret(&self) -> (r: [u8; 32])
        ensures
            r@ == self.spec_secret(),
    {
        self.launch_secret.0
    }

    /// Drains the audit log, oldest event first.
    pub fn take_audit_events(&mut self) -> (r: Vec<AuthAuditEvent>)
        requires
            old(self).wf(),
        ensures
            final(self).wf(),
            r@.map_values(|e: AuthAuditEvent| e@) == old(self).audit(),
            final(self).audit() == Seq::<AuditView>::empty(),
            final(self).challenge_map() == old(self).challenge_map(),
            final(self).session_map() == old(self).session_map(),
            final(self).session_order() == old(self).session_order(),
            final(self).spec_crypto() == old(self).spec_crypto(),
            final(self).spec_launch_id() == old(self).spec_launch_id(),
            final(self).spec_secret() == old(self).spec_secret(),
            final(self).spec_client_id() == old(self).spec_client_id(),
    {
        let ghost initial_log = self.audit_events@;
        let mut out: Vec<AuthAuditEvent> = Vec::new();
        while self.audit_events.len() > 0
            invariant
                out@ + self.audit_events@ == initial_log,
                self.audit_events@.len() <= AUTH_MAX_AUDIT_EVENTS,
                self.challenges@ == old(self).challenges@,
                self.sessions@ == old(self).sessions@,
                self.crypto == old(self).crypto,
                self.launch_id == old(self).launch_id,
                self.launch_secret.0 == old(self).launch_secret.0,
                self.expected_client_id == old(self).expected_client_id,
                initial_log == old(self).audit_events@,
                keys_unique(self.challenges@, challenge_key()),
                keys_unique(self.sessions@, session_key()),
                self.challenges@.len() <= AUTH_MAX_PENDING_CHALLENGES,
                valid_text(self.expected_client_id@, AUTH_MAX_CLIENT_ID_LEN as nat),
            decreases self.audit_events@.len(),
        {
            match self.audit_events.pop_front() {
                Some(e) => {
                    out.push(e);
                },
                None => {},
            }
            assert(out@ + self.audit_events@ =~= initial_log);
        }
        assert(out@ =~= initial_log);
        assert(out@.map_values(|e: AuthAuditEvent| e@) =~= old(self).audit());
        assert(self.audit() =~= Seq::<AuditView>::empty());
        out
    }

    fn record(&mut self, event: AuthAuditEvent)
        requires
            old(self).wf(),
        ensures
            final(self).wf(),
            final(self).same_state(old(self)),
            final(self).audit() == push_bounded(old(self).audit(), event@),
    {
        let ghost before = self.audit_events@;
        if self.audit_events.len() >= AUTH_MAX_AUDIT_EVENTS {
            let _ = self.audit_events.pop_front();
        }
        self.audit_events.push_back(event);
        proof {
            if before.len() >= AUTH_MAX_AUDIT_EVENTS {
                assert(self.audit_events@ =~= before.drop_first().push(event));
            }
            assert(self.audit() =~= push_bounded(
                before.map_values(|e: AuthAuditEvent| e@),
                event@,
            ));
        }
    }

    fn record_failure(&mut self, now_ms: u64, response: &ChallengeResponse, error: &AuthError)
        requires
            old(self).wf(),
        ensures
            final(self).wf(),
            final(self).same_state(old(self)),
            final(self).audit() == push_bounded(old(self).audit(), failed_event(now_ms, *response, *error)),
    {
        let correlation_id = if is_valid_text(
            response.correlation_id.as_str(),
            AUTH_MAX_CORRELATION_ID_LEN,
        ) {
            Some(response.correlation_id.clone())
        } else {
            None
        };
        self.record(
            AuthAuditEvent {
                event_type: AuthAuditEventType::AuthenticationFailed,
                timestamp_ms: now_ms,
                protocol_version: response.protocol_version,
                correlation_id,
                session_id: None,
                reason: Some(error.audit_reason()),
            },
        );
    }

    /// The checks and state changes of `complete_challenge`, without the
    /// failure record.
    fn complete_checked(&mut self, response: &ChallengeResponse, now_ms: u64) -> (r: Result<
        AuthenticatedSession,
        AuthError,
    >)
        requires
            old(self).wf(),
        ensures
            final(self).wf(),
            completion_precheck(
                old(self).challenge_map(),
                old(self).spec_client_id(),
                *response,
                now_ms,
            ) matches Some(e) ==> r == Err::<AuthenticatedSession, AuthError>(e),
            r is Err ==> final(self).same_state(old(self)) && final(self).audit() == old(self).audit(),
            completion_precheck(
                old(self).challenge_map(),
                old(self).spec_client_id(),
                *response,
                now_ms,
            ) is None && old(self).spec_crypto().models_hmac() && response.proof@ != old(self).spec_crypto().spec_hmac(
                old(self).spec_secret(),
                challenge_transcript_spec(old(self).challenge_map()[response.challenge_id@].challenge),
            ) ==> r == Err::<AuthenticatedSession, AuthError>(AuthError::InvalidProof),
            completion_precheck(
                old(self).challenge_map(),
                old(self).spec_client_id(),
                *response,
                now_ms,
            ) is None && old(self).spec_crypto().models_hmac()
                && old(self).spec_crypto().randomness_never_fails() && response.proof@ == old(
                self,
            ).spec_crypto().spec_hmac(
                old(self).spec_secret(),
                challenge_transcript_spec(old(self).challenge_map()[response.challenge_id@].challenge),
            ) ==> r is Ok || r == Err::<AuthenticatedSession, AuthError>(AuthError::CryptoFailure),
            r matches Ok(h) ==> {
                let c = old(self).challenge_map()[response.challenge_id@].challenge;
                let t = challenge_transcript_spec(c);
                &&& completion_precheck(
                    old(self).challenge_map(),
                    old(self).spec_client_id(),
                    *response,
                    now_ms,
                ) is None
                &&& old(self).spec_crypto().models_hmac() ==> response.proof@ == old(self).spec_crypto().spec_hmac(
                    old(self).spec_secret(),
                    t,
                )
                &&& !old(self).session_map().contains_key(h.spec_session_id())
                &&& h.spec_launch_id() == old(self).spec_launch_id()
                &&& h.spec_issued_at() == now_ms
                &&& h.spec_expires_at() == sat_add(now_ms, AUTH_SESSION_TTL_MS)
                &&& final(self).challenge_map() == old(self).challenge_map().insert(
                    response.challenge_id@,
                    ChallengeView { challenge: c, consumed: true },
                )
                &&& final(self).session_map() == old(self).session_map().insert(
                    h.spec_session_id(),
                    SessionView {
                        issued_at_ms: now_ms,
                        expires_at_ms: sat_add(now_ms, AUTH_SESSION_TTL_MS),
                        revoked: false,
                        last_sequence: 0,
                        key: final(self).session_map()[h.spec_session_id()].key,
                    },
                )
                &&& old(self).spec_crypto().models_hmac() ==> final(self).session_map()[h.spec_session_id()].key
                    == old(self).spec_crypto().spec_hmac(
                    old(self).spec_secret(),
                    session_key_material_spec(t, h.spec_session_id()),
                )
                &&& final(self).session_order() == old(self).session_order().push(
                    h.spec_session_id(),
                )
                &&& final(self).audit() == push_bounded(
                    old(self).audit(),
                    succeeded_event(now_ms, response.correlation_id@, h.spec_session_id()),
                )
                &&& final(self).spec_crypto() == old(self).spec_crypto()
                &&& final(self).spec_launch_id() == old(self).spec_launch_id()
                &&& final(self).spec_secret() == old(self).spec_secret()
                &&& final(self).spec_client_id() == old(self).spec_client_id()
            },
    {
        if response.protocol_version != AUTH_PROTOCOL_VERSION {
            return Err(
                AuthError::UnsupportedProtocolVersion {
                    expected: AUTH_PROTOCOL_VERSION,
                    received: response.protocol_version,
                },
            );
        }
        match validate_text(response.client_id.as_str(), AUTH_MAX_CLIENT_ID_LEN, "client_id") {
            Ok(()) => {},
            Err(e) => return Err(e),
        }
        match validate_text(
            response.correlation_id.as_str(),
            AUTH_MAX_CORRELATION_ID_LEN,
            "correlation_id",
        ) {
            Ok(()) => {},
            Err(e) => return Err(e),
        }
        let idx = match self.find_challenge(&response.challenge_id) {
            None => return Err(AuthError::UnknownChallenge),
            Some(i) => i,
        };
        proof {
            lemma_keyed_at(self.challenges@, challenge_key(), challenge_val(), idx as int);
        }
        let challenge = copy_challenge(&self.challenges[idx].challenge);
        let consumed = self.challenges[idx].consumed;
        if !bytes_eq(challenge.launch_id.as_bytes(), response.launch_id.as_bytes()) {
            return Err(AuthError::LaunchIdentityMismatch);
        }
        if consumed {
            return Err(AuthError::ChallengeReplayed);
        }
        if now_ms < challenge.issued_at_ms || now_ms >= challenge.expires_at_ms {
            return Err(AuthError::ChallengeExpired);
        }
        if !str_eq(response.correlation_id.as_str(), challenge.correlation_id.as_str()) {
            return Err(AuthError::CorrelationMismatch);
        }
        if !str_eq(response.client_id.as_str(), challenge.expected_client_id.as_str()) || !str_eq(
            response.client_id.as_str(),
            self.expected_client_id.as_str(),
        ) {
            return Err(AuthError::ClientIdentityMismatch);
        }
        let transcript = challenge_transcript(&challenge);
        let digest = self.crypto.hmac_sha256(self.launch_secret.as_bytes(), transcript.as_slice());
        match check_proof(digest, &response.proof) {
            Ok(()) => {},
            Err(e) => return Err(e),
        }
        let session_id = match self.new_unique_session_id() {
            Ok(id) => id,
            Err(e) => return Err(e),
        };
        let material = session_key_material(transcript.as_slice(), &session_id);
        let derived_key = match self.crypto.hmac_sha256(
            self.launch_secret.as_bytes(),
            material.as_slice(),
        ) {
            Ok(d) => d,
            Err(e) => return Err(e),
        };
        let consumed_state = ChallengeState { challenge: copy_challenge(&challenge), consumed: true };
        proof {
            lemma_keyed_update(
                self.challenges@,
                challenge_key(),
                challenge_val(),
                idx as int,
                consumed_state,
            );
        }
        self.challenges.set(idx, consumed_state);
        let expires_at_ms = saturating_add_u64(now_ms, AUTH_SESSION_TTL_MS);
        let flag = Arc::new(AtomicBool::new(false));
        let state = SessionState {
            session_id,
            issued_at_ms: now_ms,
            expires_at_ms,
            revoked: false,
            last_sequence: 0,
            session_key: SecretKey::new(derived_key),
            shared_revoked: share_flag(&flag),
        };
        proof {
            lemma_keyed_push(self.sessions@, session_key(), session_val(), state);
        }
        let ghost before_order = self.sessions@;
        self.sessions.push(state);
        proof {
            assert(self.session_order() =~= old(self).session_order().push(session_id@));
        }
        self.record(
            AuthAuditEvent {
                event_type: AuthAuditEventType::AuthenticationSucceeded,
                timestamp_ms: now_ms,
                protocol_version: AUTH_PROTOCOL_VERSION,
                correlation_id: Some(response.correlation_id.clone()),
                session_id: Some(session_id),
                reason: None,
            },
        );
        Ok(
            AuthenticatedSession {
                session_id,
                launch_id: self.launch_id,
                issued_at_ms: now_ms,
                expires_at_ms,
                revoked: flag,
            },
        )
    }

/// The checks and state changes of `verify_session_message`, without the
    /// rejection record.
    fn verify_checked(
        &mut self,
        session: &AuthenticatedSession,
        protocol_version: u16,
        correlation_id: &str,
        sequence: u64,
        message_digest: &[u8],
        proof: &[u8],
        now_ms: u64,
    ) -> (r: Result<(), AuthError>)
        requires
            old(self).wf(),
        ensures
            final(self).wf(),
            final(self).crypto == old(self).crypto,
            final(self).launch_id == old(self).launch_id,
            final(self).launch_secret.0 == old(self).launch_secret.0,
            final(self).expected_client_id == old(self).expected_client_id,
            final(self).challenges@ == old(self).challenges@,
            final(self).audit_events@ == old(self).audit_events@,
            final(self).session_order() == old(self).session_order(),
            ({
                let pre = message_precheck(
                    old(self).session_map(),
                    old(self).spec_launch_id(),
                    *session,
                    protocol_version,
                    correlation_id@,
                    sequence,
                    proof@.len(),
                    now_ms,
                );
                let sid = session.spec_session_id();
                let sv = old(self).session_map()[sid];
                &&& (pre matches Some(e) ==> r == Err::<(), AuthError>(e))
                &&& (pre == Some(AuthError::SessionExpired) ==> final(self).session_map()
                    == old(self).session_map().insert(sid, revoked_view(sv)))
                &&& (pre != Some(AuthError::SessionExpired) && r is Err ==> final(self).session_map()
                    == old(self).session_map())
                &&& (pre is None && old(self).spec_crypto().models_hmac() ==> r == message_verdict(
                    Ok(
                        old(self).spec_crypto().spec_hmac(
                            sv.key,
                            message_transcript_spec(
                                protocol_version,
                                sid,
                                correlation_id@,
                                sequence,
                                message_digest@,
                            ),
                        ),
                    ),
                    proof@,
                    sequence,
                    sv.last_sequence,
                ))
                &&& (pre is None && sequence <= sv.last_sequence ==> r is Err)
                &&& (r is Ok ==> {
                    &&& pre is None
                    &&& old(self).spec_crypto().models_hmac() ==> proof@ == old(self).spec_crypto().spec_hmac(
                        sv.key,
                        message_transcript_spec(
                            protocol_version,
                            sid,
                            correlation_id@,
                            sequence,
                            message_digest@,
                        ),
                    )
                    &&& sequence > sv.last_sequence
                    &&& final(self).session_map() == old(self).session_map().insert(
                        sid,
                        SessionView { last_sequence: sequence, ..sv },
                    )
                })
            }),
    {
        if protocol_version != AUTH_PROTOCOL_VERSION {
            return Err(
                AuthError::UnsupportedProtocolVersion {
                    expected: AUTH_PROTOCOL_VERSION,
                    received: protocol_version,
                },
            );
        }
        match validate_text(correlation_id, AUTH_MAX_CORRELATION_ID_LEN, "correlation_id") {
            Ok(()) => {},
            Err(e) => return Err(e),
        }
        if sequence == 0 {
            return Err(AuthError::InvalidSequence);
        }
        if proof.len() != AUTH_PROOF_LEN {
            return Err(AuthError::MalformedInput("proof"));
        }
        let idx = match self.find_session(&session.session_id) {
            None => return Err(AuthError::UnknownSession),
            Some(i) => i,
        };
        proof {
            lemma_keyed_at(self.sessions@, session_key(), session_val(), idx as int);
            assert(self.session_order()[idx as int] == self.sessions@[idx as int].session_id@);
        }
        if self.sessions[idx].issued_at_ms != session.issued_at_ms || self.sessions[idx].expires_at_ms
            != session.expires_at_ms || !bytes_eq(
            session.launch_id.as_bytes(),
            self.launch_id.as_bytes(),
        ) {
            return Err(AuthError::UnknownSession);
        }
        if self.sessions[idx].revoked {
            return Err(AuthError::SessionRevoked);
        }
        if now_ms >= self.sessions[idx].expires_at_ms {
            let revoked = SessionState {
                session_id: self.sessions[idx].session_id,
                issued_at_ms: self.sessions[idx].issued_at_ms,
                expires_at_ms: self.sessions[idx].expires_at_ms,
                revoked: true,
                last_sequence: self.sessions[idx].last_sequence,
                session_key: SecretKey::new(self.sessions[idx].session_key.0),
                shared_revoked: share_flag(&self.sessions[idx].shared_revoked),
            };
            raise_flag(&self.sessions[idx].shared_revoked);
            proof {
                lemma_keyed_update(self.sessions@, session_key(), session_val(), idx as int, revoked);
            }
            self.sessions.set(idx, revoked);
            proof {
                assert(self.session_order() =~= old(self).session_order());
            }
            return Err(AuthError::SessionExpired);
        }
        let transcript = message_transcript(
            protocol_version,
            &session.session_id,
            correlation_id,
            sequence,
            message_digest,
        );
        let digest = self.crypto.hmac_sha256(
            self.sessions[idx].session_key.as_bytes(),
            transcript.as_slice(),
        );
        match check_message(digest, proof, sequence, self.sessions[idx].last_sequence) {
            Ok(()) => {},
            Err(e) => return Err(e),
        }
        let advanced = SessionState {
            session_id: self.sessions[idx].session_id,
            issued_at_ms: self.sessions[idx].issued_at_ms,
            expires_at_ms: self.sessions[idx].expires_at_ms,
            revoked: false,
            last_sequence: sequence,
            session_key: SecretKey::new(self.sessions[idx].session_key.0),
            shared_revoked: share_flag(&self.sessions[idx].shared_revoked),
        };
        proof {
            lemma_keyed_update(self.sessions@, session_key(), session_val(), idx as int, advanced);
        }
        self.sessions.set(idx, advanced);
        proof {
            assert(self.session_order() =~= old(self).session_order());
        }
        Ok(())
    }

    /// True when `session` was issued by this server and is neither revoked
    /// nor expired at `now_ms`.
    pub fn is_session_active(&self, session: &AuthenticatedSession, now_ms: u64) -> (r: bool)
        requires
            self.wf(),
        ensures
            r == (handle_registered(self.session_map(), self.spec_launch_id(), *session)
                && session_active(self.session_map()[session.spec_session_id()], now_ms)),
    {
        match self.find_session(&session.session_id) {
            None => false,
            Some(idx) => {
                proof {
                    lemma_keyed_at(self.sessions@, session_key(), session_val(), idx as int);
                }
                self.sessions[idx].issued_at_ms == session.issued_at_ms
                    && self.sessions[idx].expires_at_ms == session.expires_at_ms && bytes_eq(
                    session.launch_id.as_bytes(),
                    self.launch_id.as_bytes(),
                ) && self.sessions[idx].is_active_at(now_ms)
            },
        }
    }

    fn find_challenge(&self, id: &ChallengeId) -> (r: Option<usize>)
        requires
            self.wf(),
        ensures
            r is None <==> !self.challenge_map().contains_key(id@),
            r matches Some(i) ==> i < self.challenges@.len()
                && self.challenges@[i as int].challenge.challenge_id@ == id@,
    {
        let mut i: usize = 0;
        while i < self.challenges.len()
            invariant
                i <= self.challenges@.len(),
                forall|j: int|
                    0 <= j < i ==> (#[trigger] self.challenges@[j]).challenge.challenge_id@ != id@,
            decreases self.challenges@.len() - i,
        {
            if bytes_eq(self.challenges[i].challenge.challenge_id.as_bytes(), id.as_bytes()) {
                proof {
                    lemma_keyed_dom(self.challenges@, challenge_key(), challenge_val(), id@);
                }
                return Some(i);
            }
            i += 1;
        }
        proof {
            lemma_keyed_dom(self.challenges@, challenge_key(), challenge_val(), id@);
        }
        None
    }

    fn find_session(&self, id: &SessionId) -> (r: Option<usize>)
        requires
            self.wf(),
        ensures
            r is None <==> !self.session_map().contains_key(id@),
            r matches Some(i) ==> i < self.sessions@.len() && self.sessions@[i as int].session_id@
                == id@,
    {
        let mut i: usize = 0;
        while i < self.sessions.len()
            invariant
                i <= self.sessions@.len(),
                forall|j: int| 0 <= j < i ==> (#[trigger] self.sessions@[j]).session_id@ != id@,
            decreases self.sessions@.len() - i,
        {
            if bytes_eq(self.sessions[i].session_id.as_bytes(), id.as_bytes()) {
                proof {
                    lemma_keyed_dom(self.sessions@, session_key(), session_val(), id@);
                }
                return Some(i);
            }
            i += 1;
        }
        proof {
            lemma_keyed_dom(self.sessions@, session_key(), session_val(), id@);
        }
        None
    }

    /// A random challenge id not in use, drawing at most eight candidates.
    fn new_unique_challenge_id(&self) -> (r: Result<ChallengeId, AuthError>)
        requires
            self.wf(),
        ensures
            r matches Ok(id) ==> !self.challenge_map().contains_key(id@),
            self.crypto.randomness_never_fails() ==> r is Ok || r == Err::<ChallengeId, AuthError>(
                AuthError::CryptoFailure,
            ),
    {
        let mut attempt: usize = 0;
        while attempt < 8
            invariant
                self.wf(),
            decreases 8 - attempt,
        {
            let mut bytes = [0u8; 16];
            match self.crypto.fill_random(&mut bytes) {
                Ok(()) => {},
                Err(e) => return Err(e),
            }
            let candidate = ChallengeId::from_bytes(bytes);
            if self.find_challenge(&candidate).is_none() {
                return Ok(candidate);
            }
            attempt += 1;
        }
        Err(AuthError::CryptoFailure)
    }

    /// A random session id not in use, drawing at most eight candidates.
    fn new_unique_session_id(&self) -> (r: Result<SessionId, AuthError>)
        requires
            self.wf(),
        ensures
            r matches Ok(id) ==> !self.session_map().contains_key(id@),
            self.crypto.randomness_never_fails() ==> r is Ok || r == Err::<SessionId, AuthError>(
                AuthError::CryptoFailure,
            ),
    {
        let mut attempt: usize = 0;
        while attempt < 8
            invariant
                self.wf(),
            decreases 8 - attempt,
        {
            let mut bytes = [0u8; 16];
            match self.crypto.fill_random(&mut bytes) {
                Ok(()) => {},
                Err(e) => return Err(e),
            }
            let candidate = SessionId::from_bytes(bytes);
            if self.find_session(&candidate).is_none() {
                return Ok(candidate);
            }
            attempt += 1;
        }
        Err(AuthError::CryptoFailure)
    }

    /// Index of a challenge issued no later than any other.
    fn oldest_challenge(&self) -> (r: usize)
        requires
            self.challenges@.len() > 0,
        ensures
            r < self.challenges@.len(),
            forall|j: int|
                0 <= j < self.challenges@.len() ==> self.challenges@[r as int].challenge.issued_at_ms
                    <= (#[trigger] self.challenges@[j]).challenge.issued_at_ms,
    {
        let mut best: usize = 0;
        let mut i: usize = 1;
        while i < self.challenges.len()
            invariant
                1 <= i <= self.challenges@.len(),
                best < i,
                forall|j: int|
                    0 <= j < i ==> self.challenges@[best as int].challenge.issued_at_ms
                        <= (#[trigger] self.challenges@[j]).challenge.issued_at_ms,
            decreases self.challenges@.len() - i,
        {
            if self.challenges[i].challenge.issued_at_ms < self.challenges[best].challenge.issued_at_ms {
                best = i;
            }
            i += 1;
        }
        best
    }
}


/// The Core's client id is a well-formed client id.
proof fn lemma_core_client_id_valid()
    ensures
        valid_text(CORE_CLIENT_ID@, AUTH_MAX_CLIENT_ID_LEN as nat),
{
    reveal_strlit("naveen-ai-core");
    let s = CORE_CLIENT_ID@;
    assert(s =~= seq!['n', 'a', 'v', 'e', 'e', 'n', '-', 'a', 'i', '-', 'c', 'o', 'r', 'e']);
    assert(crate::text::all_ascii(s));
    crate::text::lemma_ascii_utf8(s);
    let b = utf8_bytes(s);
    assert forall|i: int| 0 <= i < b.len() implies b[i] != 0u8 by {
        assert(b[i] == (s[i] as u32) as u8);
    }
}

impl AuthenticationServer<PlatformCrypto> {
    /// A server over the platform crypto provider, expecting the Core client.
    /// The provider of this build has no randomness, so no server comes out.
    pub fn new() -> (r: Result<Self, AuthError>)
        ensures
            r == Err::<Self, AuthError>(AuthError::CryptoUnavailable),
    {
        proof {
            lemma_core_client_id_valid();
        }
        Self::with_crypto(PlatformCrypto, CORE_CLIENT_ID)
    }
}

impl<C: AuthCrypto> AuthenticationProvider for AuthenticationServer<C> {
    open spec fn provider_inv(&self) -> bool {
        self.wf()
    }

    open spec fn models_verdict(&self) -> bool {
        self.spec_crypto().models_hmac()
    }

    open spec fn spec_verdict(
        &self,
        session: AuthenticatedSession,
        protocol_version: u16,
        correlation_id: Seq<char>,
        sequence: u64,
        message_digest: Seq<u8>,
        proof: Seq<u8>,
        now_ms: u64,
    ) -> Result<(), AuthError> {
        server_verdict(
            self.session_map(),
            self.spec_launch_id(),
            self.spec_crypto(),
            session,
            protocol_version,
            correlation_id,
            sequence,
            message_digest,
            proof,
            now_ms,
        )
    }

    fn issue_challenge(&mut self, protocol_version: u16, correlation_id: &str, now_ms: u64) -> (r:
        Result<AuthChallenge, AuthError>)
        ensures
            final(self).spec_crypto() == old(self).spec_crypto(),
            final(self).spec_launch_id() == old(self).spec_launch_id(),
            final(self).spec_secret() == old(self).spec_secret(),
            final(self).spec_client_id() == old(self).spec_client_id(),
            final(self).session_map() == old(self).session_map(),
            final(self).session_order() == old(self).session_order(),
            protocol_version != AUTH_PROTOCOL_VERSION ==> r == Err::<AuthChallenge, AuthError>(
                AuthError::UnsupportedProtocolVersion {
                    expected: AUTH_PROTOCOL_VERSION,
                    received: protocol_version,
                },
            ),
            protocol_version == AUTH_PROTOCOL_VERSION && !valid_text(
                correlation_id@,
                AUTH_MAX_CORRELATION_ID_LEN as nat,
            ) ==> r == Err::<AuthChallenge, AuthError>(AuthError::MalformedInput("correlation_id")),
            (protocol_version != AUTH_PROTOCOL_VERSION || !valid_text(
                correlation_id@,
                AUTH_MAX_CORRELATION_ID_LEN as nat,
            )) ==> final(self).challenge_map() == old(self).challenge_map(),
            r is Err ==> final(self).audit() == old(self).audit(),
            protocol_version == AUTH_PROTOCOL_VERSION && valid_text(
                correlation_id@,
                AUTH_MAX_CORRELATION_ID_LEN as nat,
            ) && old(self).spec_crypto().randomness_never_fails() ==> r is Ok || r == Err::<
                AuthChallenge,
                AuthError,
            >(AuthError::CryptoFailure),
            r is Err && protocol_version == AUTH_PROTOCOL_VERSION && valid_text(
                correlation_id@,
                AUTH_MAX_CORRELATION_ID_LEN as nat,
            ) ==> exists|base: Map<Seq<u8>, ChallengeView>|
                evicts_oldest(old(self).challenge_map(), base) && final(self).challenge_map()
                    == base,
            r matches Ok(c) ==> {
                &&& fresh_challenge_fields(
                    c,
                    old(self).spec_launch_id(),
                    old(self).spec_client_id(),
                    correlation_id@,
                    now_ms,
                )
                &&& exists|base: Map<Seq<u8>, ChallengeView>|
                    evicts_oldest(old(self).challenge_map(), base) && !base.contains_key(
                        c.challenge_id@,
                    ) && final(self).challenge_map() == base.insert(
                        c.challenge_id@,
                        ChallengeView { challenge: c, consumed: false },
                    )
                &&& final(self).audit() == push_bounded(
                    old(self).audit(),
                    issued_event(now_ms, correlation_id@),
                )
            },
    {
        if protocol_version != AUTH_PROTOCOL_VERSION {
            return Err(
                AuthError::UnsupportedProtocolVersion {
                    expected: AUTH_PROTOCOL_VERSION,
                    received: protocol_version,
                },
            );
        }
        match validate_text(correlation_id, AUTH_MAX_CORRELATION_ID_LEN, "correlation_id") {
            Ok(()) => {},
            Err(e) => return Err(e),
        }
        let ghost old_map = self.challenge_map();
        let ghost old_seq = self.challenges@;
        proof {
            lemma_keyed_len(old_seq, challenge_key(), challenge_val());
        }
        if self.challenges.len() >= AUTH_MAX_PENDING_CHALLENGES {
            let idx = self.oldest_challenge();
            proof {
                lemma_keyed_remove(old_seq, challenge_key(), challenge_val(), idx as int);
                lemma_keyed_at(old_seq, challenge_key(), challenge_val(), idx as int);
                let k = old_seq[idx as int].challenge.challenge_id@;
                assert forall|k2: Seq<u8>| #[trigger] old_map.contains_key(k2) implies old_map[k].challenge.issued_at_ms
                    <= old_map[k2].challenge.issued_at_ms by {
                    lemma_keyed_dom(old_seq, challenge_key(), challenge_val(), k2);
                    let j = choose|j: int|
                        0 <= j < old_seq.len() && (challenge_key())(#[trigger] old_seq[j]) == k2;
                    lemma_keyed_at(old_seq, challenge_key(), challenge_val(), j);
                }
                assert(old_map.remove(k) == keyed_map(old_seq.remove(idx as int), challenge_key(), challenge_val()));
            }
            let _ = self.challenges.remove(idx);
        }
        let ghost base = self.challenge_map();
        assert(evicts_oldest(old_map, base));
        let challenge_id = match self.new_unique_challenge_id() {
            Ok(id) => id,
            Err(e) => return Err(e),
        };
        let mut nonce = [0u8; 32];
        match self.crypto.fill_random(&mut nonce) {
            Ok(()) => {},
            Err(e) => return Err(e),
        }
        let challenge = AuthChallenge {
            protocol_version: AUTH_PROTOCOL_VERSION,
            launch_id: self.launch_id,
            challenge_id,
            nonce,
            issued_at_ms: now_ms,
            expires_at_ms: saturating_add_u64(now_ms, AUTH_CHALLENGE_TTL_MS),
            expected_client_id: self.expected_client_id.clone(),
            correlation_id: correlation_id.to_string(),
        };
        let state = ChallengeState { challenge: copy_challenge(&challenge), consumed: false };
        proof {
            lemma_keyed_push(self.challenges@, challenge_key(), challenge_val(), state);
            lemma_keyed_len(self.challenges@, challenge_key(), challenge_val());
        }
        self.challenges.push(state);
        self.record(
            AuthAuditEvent {
                event_type: AuthAuditEventType::ChallengeIssued,
                timestamp_ms: now_ms,
                protocol_version: AUTH_PROTOCOL_VERSION,
                correlation_id: Some(correlation_id.to_string()),
                session_id: None,
                reason: None,
            },
        );
        Ok(challenge)
    }

    fn complete_challenge(&mut self, response: &ChallengeResponse, now_ms: u64) -> (r: Result<
        AuthenticatedSession,
        AuthError,
    >)
        ensures
            completion_precheck(
                old(self).challenge_map(),
                old(self).spec_client_id(),
                *response,
                now_ms,
            ) matches Some(e) ==> r == Err::<AuthenticatedSession, AuthError>(e),
            final(self).spec_crypto() == old(self).spec_crypto(),
            final(self).spec_launch_id() == old(self).spec_launch_id(),
            final(self).spec_secret() == old(self).spec_secret(),
            final(self).spec_client_id() == old(self).spec_client_id(),
            r matches Err(e) ==> {
                &&& final(self).challenge_map() == old(self).challenge_map()
                &&& final(self).session_map() == old(self).session_map()
                &&& final(self).session_order() == old(self).session_order()
                &&& final(self).audit() == push_bounded(
                    old(self).audit(),
                    failed_event(now_ms, *response, e),
                )
            },
            completion_precheck(
                old(self).challenge_map(),
                old(self).spec_client_id(),
                *response,
                now_ms,
            ) is None && old(self).spec_crypto().models_hmac() && response.proof@ != old(self).spec_crypto().spec_hmac(
                old(self).spec_secret(),
                challenge_transcript_spec(old(self).challenge_map()[response.challenge_id@].challenge),
            ) ==> r == Err::<AuthenticatedSession, AuthError>(AuthError::InvalidProof),
            completion_precheck(
                old(self).challenge_map(),
                old(self).spec_client_id(),
                *response,
                now_ms,
            ) is None && old(self).spec_crypto().models_hmac()
                && old(self).spec_crypto().randomness_never_fails() && response.proof@ == old(
                self,
            ).spec_crypto().spec_hmac(
                old(self).spec_secret(),
                challenge_transcript_spec(old(self).challenge_map()[response.challenge_id@].challenge),
            ) ==> r is Ok || r == Err::<AuthenticatedSession, AuthError>(AuthError::CryptoFailure),
            r matches Ok(h) ==> {
                let c = old(self).challenge_map()[response.challenge_id@].challenge;
                let t = challenge_transcript_spec(c);
                &&& completion_precheck(
                    old(self).challenge_map(),
                    old(self).spec_client_id(),
                    *response,
                    now_ms,
                ) is None
                &&& old(self).spec_crypto().models_hmac() ==> response.proof@ == old(self).spec_crypto().spec_hmac(
                    old(self).spec_secret(),
                    t,
                )
                &&& !old(self).session_map().contains_key(h.spec_session_id())
                &&& h.spec_launch_id() == old(self).spec_launch_id()
                &&& h.spec_issued_at() == now_ms
                &&& h.spec_expires_at() == sat_add(now_ms, AUTH_SESSION_TTL_MS)
                &&& final(self).challenge_map() == old(self).challenge_map().insert(
                    response.challenge_id@,
                    ChallengeView { challenge: c, consumed: true },
                )
                &&& final(self).session_map() == old(self).session_map().insert(
                    h.spec_session_id(),
                    SessionView {
                        issued_at_ms: now_ms,
                        expires_at_ms: sat_add(now_ms, AUTH_SESSION_TTL_MS),
                        revoked: false,
                        last_sequence: 0,
                        key: final(self).session_map()[h.spec_session_id()].key,
                    },
                )
                &&& old(self).spec_crypto().models_hmac() ==> final(self).session_map()[h.spec_session_id()].key
                    == old(self).spec_crypto().spec_hmac(
                    old(self).spec_secret(),
                    session_key_material_spec(t, h.spec_session_id()),
                )
                &&& final(self).session_order() == old(self).session_order().push(
                    h.spec_session_id(),
                )
                &&& final(self).audit() == push_bounded(
                    old(self).audit(),
                    succeeded_event(now_ms, response.correlation_id@, h.spec_session_id()),
                )
            },
    {
        let result = self.complete_checked(response, now_ms);
        match &result {
            Ok(_) => {},
            Err(error) => self.record_failure(now_ms, response, error),
        }
        result
    }

    fn verify_session_message(
        &mut self,
        session: &AuthenticatedSession,
        protocol_version: u16,
        correlation_id: &str,
        sequence: u64,
        message_digest: &[u8],
        proof: &[u8],
        now_ms: u64,
    ) -> (r: Result<(), AuthError>)
        ensures
            final(self).spec_crypto() == old(self).spec_crypto(),
            final(self).spec_launch_id() == old(self).spec_launch_id(),
            final(self).spec_secret() == old(self).spec_secret(),
            final(self).spec_client_id() == old(self).spec_client_id(),
            final(self).challenge_map() == old(self).challenge_map(),
            final(self).session_order() == old(self).session_order(),
            r is Ok ==> final(self).audit() == old(self).audit(),
            r matches Err(e) ==> final(self).audit() == push_bounded(
                old(self).audit(),
                message_rejected_event(
                    now_ms,
                    protocol_version,
                    correlation_id@,
                    session.spec_session_id(),
                    e,
                ),
            ),
            ({
                let pre = message_precheck(
                    old(self).session_map(),
                    old(self).spec_launch_id(),
                    *session,
                    protocol_version,
                    correlation_id@,
                    sequence,
                    proof@.len(),
                    now_ms,
                );
                let sid = session.spec_session_id();
                let sv = old(self).session_map()[sid];
                &&& (pre matches Some(e) ==> r == Err::<(), AuthError>(e))
                &&& (pre == Some(AuthError::SessionExpired) ==> final(self).session_map()
                    == old(self).session_map().insert(sid, revoked_view(sv)))
                &&& (pre != Some(AuthError::SessionExpired) && r is Err ==> final(self).session_map()
                    == old(self).session_map())
                &&& (pre is None && old(self).spec_crypto().models_hmac() ==> r == message_verdict(
                    Ok(
                        old(self).spec_crypto().spec_hmac(
                            sv.key,
                            message_transcript_spec(
                                protocol_version,
                                sid,
                                correlation_id@,
                                sequence,
                                message_digest@,
                            ),
                        ),
                    ),
                    proof@,
                    sequence,
                    sv.last_sequence,
                ))
                &&& (pre is None && sequence <= sv.last_sequence ==> r is Err)
                &&& (r is Ok ==> {
                    &&& pre is None
                    &&& old(self).spec_crypto().models_hmac() ==> proof@ == old(self).spec_crypto().spec_hmac(
                        sv.key,
                        message_transcript_spec(
                            protocol_version,
                            sid,
                            correlation_id@,
                            sequence,
                            message_digest@,
                        ),
                    )
                    &&& sequence > sv.last_sequence
                    &&& final(self).session_map() == old(self).session_map().insert(
                        sid,
                        SessionView { last_sequence: sequence, ..sv },
                    )
                })
            }),
    {
        let result = self.verify_checked(
            session,
            protocol_version,
            correlation_id,
            sequence,
            message_digest,
            proof,
            now_ms,
        );
        match &result {
            Ok(()) => {},
            Err(error) => {
                let event_type = match error {
                    AuthError::SessionExpired => AuthAuditEventType::SessionExpired,
                    _ => AuthAuditEventType::SessionMessageRejected,
                };
                let correlation = if is_valid_text(correlation_id, AUTH_MAX_CORRELATION_ID_LEN) {
                    Some(correlation_id.to_string())
                } else {
                    None
                };
                self.record(
                    AuthAuditEvent {
                        event_type,
                        timestamp_ms: now_ms,
                        protocol_version,
                        correlation_id: correlation,
                        session_id: Some(session.session_id),
                        reason: Some(error.audit_reason()),
                    },
                );
            },
        }
        result
    }

    fn invalidate_session(&mut self, session: &AuthenticatedSession, now_ms: u64) -> (r: bool)
        ensures
            final(self).spec_crypto() == old(self).spec_crypto(),
            final(self).spec_launch_id() == old(self).spec_launch_id(),
            final(self).spec_secret() == old(self).spec_secret(),
            final(self).spec_client_id() == old(self).spec_client_id(),
            final(self).challenge_map() == old(self).challenge_map(),
            final(self).session_order() == old(self).session_order(),
            !handle_registered(old(self).session_map(), old(self).spec_launch_id(), *session) ==> {
                &&& !r
                &&& final(self).session_map() == old(self).session_map()
                &&& final(self).audit() == old(self).audit()
            },
            handle_registered(old(self).session_map(), old(self).spec_launch_id(), *session) ==> {
                let sid = session.spec_session_id();
                let sv = old(self).session_map()[sid];
                &&& r == session_active(sv, now_ms)
                &&& final(self).session_map() == old(self).session_map().insert(
                    sid,
                    revoked_view(sv),
                )
                &&& final(self).audit() == if r {
                    push_bounded(old(self).audit(), invalidated_event(now_ms, sid))
                } else {
                    old(self).audit()
                }
            },
    {
        let idx = match self.find_session(&session.session_id) {
            None => return false,
            Some(i) => i,
        };
        proof {
            lemma_keyed_at(self.sessions@, session_key(), session_val(), idx as int);
        }
        if self.sessions[idx].issued_at_ms != session.issued_at_ms || self.sessions[idx].expires_at_ms
            != session.expires_at_ms || !bytes_eq(
            session.launch_id.as_bytes(),
            self.launch_id.as_bytes(),
        ) {
            return false;
        }
        let was_active = self.sessions[idx].is_active_at(now_ms);
        let revoked = SessionState {
            session_id: self.sessions[idx].session_id,
            issued_at_ms: self.sessions[idx].issued_at_ms,
            expires_at_ms: self.sessions[idx].expires_at_ms,
            revoked: true,
            last_sequence: self.sessions[idx].last_sequence,
            session_key: SecretKey::new(self.sessions[idx].session_key.0),
            shared_revoked: share_flag(&self.sessions[idx].shared_revoked),
        };
        raise_flag(&self.sessions[idx].shared_revoked);
        proof {
            lemma_keyed_update(self.sessions@, session_key(), session_val(), idx as int, revoked);
        }
        self.sessions.set(idx, revoked);
        proof {
            assert(self.session_order() =~= old(self).session_order());
        }
        if was_active {
            self.record(
                AuthAuditEvent {
                    event_type: AuthAuditEventType::SessionInvalidated,
                    timestamp_ms: now_ms,
                    protocol_version: AUTH_PROTOCOL_VERSION,
                    correlation_id: None,
                    session_id: Some(session.session_id),
                    reason: Some(AuthFailureReason::SessionRevoked),
                },
            );
        }
        was_active
    }

    fn invalidate_all_sessions(&mut self, now_ms: u64)
        ensures
            final(self).spec_crypto() == old(self).spec_crypto(),
            final(self).spec_launch_id() == old(self).spec_launch_id(),
            final(self).spec_secret() == old(self).spec_secret(),
            final(self).spec_client_id() == old(self).spec_client_id(),
            final(self).challenge_map() == old(self).challenge_map(),
            final(self).session_order() == old(self).session_order(),
            final(self).session_map().dom() == old(self).session_map().dom(),
            forall|k: Seq<u8>|
                #[trigger] old(self).session_map().contains_key(k) ==> final(self).session_map()[k]
                    == revoked_view(old(self).session_map()[k]),
            final(self).audit() == invalidation_log(
                old(self).audit(),
                old(self).session_order(),
                old(self).session_map(),
                now_ms,
            ),
    {
        let ghost old_seq = self.sessions@;
        let ghost old_map = self.session_map();
        let ghost ids = self.session_order();
        let n = self.sessions.len();
        let mut i: usize = 0;
        proof {
            assert(ids.take(0) =~= Seq::<Seq<u8>>::empty());
        }
        while i < n
            invariant
                self.wf(),
                n == self.sessions@.len(),
                n == old_seq.len(),
                i <= n,
                ids == old_seq.map_values(|s: SessionState| s.session_id@),
                old_map == keyed_map(old_seq, session_key(), session_val()),
                self.crypto == old(self).crypto,
                self.launch_id == old(self).launch_id,
                self.launch_secret.0 == old(self).launch_secret.0,
                self.expected_client_id == old(self).expected_client_id,
                self.challenges@ == old(self).challenges@,
                forall|j: int| 0 <= j < n ==> (#[trigger] self.sessions@[j]).session_id == old_seq[j].session_id,
                forall|j: int|
                    0 <= j < i ==> (session_val())(#[trigger] self.sessions@[j]) == revoked_view(
                        (session_val())(old_seq[j]),
                    ),
                forall|j: int| i <= j < n ==> #[trigger] self.sessions@[j] == old_seq[j],
                self.audit() == invalidation_log(old(self).audit(), ids.take(i as int), old_map, now_ms),
                keys_unique(old_seq, session_key()),
            decreases n - i,
        {
            let was_active = self.sessions[i].is_active_at(now_ms);
            let revoked = SessionState {
                session_id: self.sessions[i].session_id,
                issued_at_ms: self.sessions[i].issued_at_ms,
                expires_at_ms: self.sessions[i].expires_at_ms,
                revoked: true,
                last_sequence: self.sessions[i].last_sequence,
                session_key: SecretKey::new(self.sessions[i].session_key.0),
                shared_revoked: share_flag(&self.sessions[i].shared_revoked),
            };
            raise_flag(&self.sessions[i].shared_revoked);
            proof {
                lemma_keyed_update(self.sessions@, session_key(), session_val(), i as int, revoked);
                lemma_keyed_at(old_seq, session_key(), session_val(), i as int);
                assert(ids.take(i + 1).drop_last() =~= ids.take(i as int));
                assert(ids.take(i + 1).last() == old_seq[i as int].session_id@);
            }
            let sid = self.sessions[i].session_id;
            self.sessions.set(i, revoked);
            if was_active {
                self.record(
                    AuthAuditEvent {
                        event_type: AuthAuditEventType::SessionInvalidated,
                        timestamp_ms: now_ms,
                        protocol_version: AUTH_PROTOCOL_VERSION,
                        correlation_id: None,
                        session_id: Some(sid),
                        reason: Some(AuthFailureReason::SessionRevoked),
                    },
                );
            }
            i += 1;
        }
        proof {
            assert(ids.take(n as int) =~= ids);
            assert(self.session_order() =~= ids);
            lemma_keyed_len(old_seq, session_key(), session_val());
            assert forall|k: Seq<u8>| #[trigger] self.session_map().contains_key(k) <==> old_map.contains_key(k) by {
                lemma_keyed_dom(self.sessions@, session_key(), session_val(), k);
                lemma_keyed_dom(old_seq, session_key(), session_val(), k);
                if self.session_map().contains_key(k) {
                    let j = choose|j: int| 0 <= j < n && (session_key())(#[trigger] self.sessions@[j]) == k;
                    assert((session_key())(old_seq[j]) == k);
                }
                if old_map.contains_key(k) {
                    let j = choose|j: int| 0 <= j < n && (session_key())(#[trigger] old_seq[j]) == k;
                    assert((session_key())(self.sessions@[j]) == k);
                }
            }
            assert(self.session_map().dom() =~= old_map.dom());
            assert forall|k: Seq<u8>| #[trigger] old_map.contains_key(k) implies self.session_map()[k]
                == revoked_view(old_map[k]) by {
                lemma_keyed_dom(old_seq, session_key(), session_val(), k);
                let j = choose|j: int| 0 <= j < n && (session_key())(#[trigger] old_seq[j]) == k;
                lemma_keyed_at(old_seq, session_key(), session_val(), j);
                lemma_keyed_at(self.sessions@, session_key(), session_val(), j);
                assert((session_key())(self.sessions@[j]) == k);
            }
        }
    }
}


/// A challenge is single-use: once a response has completed it, the same
/// response is refused as a replay, at any later time.
pub proof fn lemma_completed_challenge_refused(
    challenges: Map<Seq<u8>, ChallengeView>,
    expected_client_id: Seq<char>,
    response: ChallengeResponse,
    now_ms: u64,
    later_ms: u64,
)
    requires
        completion_precheck(challenges, expected_client_id, response, now_ms) is None,
    ensures
        completion_precheck(
            challenges.insert(
                response.challenge_id@,
                ChallengeView {
                    challenge: challenges[response.challenge_id@].challenge,
                    consumed: true,
                },
            ),
            expected_client_id,
            response,
            later_ms,
        ) == Some(AuthError::ChallengeReplayed),
{
}

/// A revoked session is refused, whatever the message, once the message
/// itself is well formed.
pub proof fn lemma_revoked_session_refused(
    sessions: Map<Seq<u8>, SessionView>,
    launch_id: Seq<u8>,
    session: AuthenticatedSession,
    protocol_version: u16,
    correlation_id: Seq<char>,
    sequence: u64,
    proof_len: nat,
    now_ms: u64,
)
    requires
        handle_registered(sessions, launch_id, session),
        protocol_version == AUTH_PROTOCOL_VERSION,
        valid_text(correlation_id, AUTH_MAX_CORRELATION_ID_LEN as nat),
        sequence != 0,
        proof_len == AUTH_PROOF_LEN,
    ensures
        message_precheck(
            sessions.insert(
                session.spec_session_id(),
                revoked_view(sessions[session.spec_session_id()]),
            ),
            launch_id,
            session,
            protocol_version,
            correlation_id,
            sequence,
            proof_len,
            now_ms,
        ) == Some(AuthError::SessionRevoked),
{
}

/// A challenge is bound to the launch that issued it: a well-formed response
/// that names a pending challenge under another launch identity is refused
/// as a launch mismatch, whatever it proves.
pub proof fn lemma_challenge_bound_to_launch(
    challenges: Map<Seq<u8>, ChallengeView>,
    expected_client_id: Seq<char>,
    response: ChallengeResponse,
    now_ms: u64,
)
    requires
        response.protocol_version == AUTH_PROTOCOL_VERSION,
        valid_text(response.client_id@, AUTH_MAX_CLIENT_ID_LEN as nat),
        valid_text(response.correlation_id@, AUTH_MAX_CORRELATION_ID_LEN as nat),
        challenges.contains_key(response.challenge_id@),
        challenges[response.challenge_id@].challenge.launch_id@ != response.launch_id@,
    ensures
        completion_precheck(challenges, expected_client_id, response, now_ms) == Some(
            AuthError::LaunchIdentityMismatch,
        ),
{
}

/// A session handle issued under another launch is unknown to this server.
pub proof fn lemma_foreign_launch_session_refused(
    sessions: Map<Seq<u8>, SessionView>,
    launch_id: Seq<u8>,
    session: AuthenticatedSession,
    protocol_version: u16,
    correlation_id: Seq<char>,
    sequence: u64,
    proof_len: nat,
    now_ms: u64,
)
    requires
        session.spec_launch_id() != launch_id,
        protocol_version == AUTH_PROTOCOL_VERSION,
        valid_text(correlation_id, AUTH_MAX_CORRELATION_ID_LEN as nat),
        sequence != 0,
        proof_len == AUTH_PROOF_LEN,
    ensures
        message_precheck(
            sessions,
            launch_id,
            session,
            protocol_version,
            correlation_id,
            sequence,
            proof_len,
            now_ms,
        ) == Some(AuthError::UnknownSession),
{
}

/// Once a message with some sequence has been accepted, a message with the
/// same sequence passes the same prechecks but no longer lies above the
/// session's last accepted sequence, so it is refused as a replay.
pub proof fn lemma_accepted_sequence_not_reusable(
    sessions: Map<Seq<u8>, SessionView>,
    launch_id: Seq<u8>,
    session: AuthenticatedSession,
    protocol_version: u16,
    correlation_id: Seq<char>,
    sequence: u64,
    proof_len: nat,
    now_ms: u64,
)
    requires
        message_precheck(
            sessions,
            launch_id,
            session,
            protocol_version,
            correlation_id,
            sequence,
            proof_len,
            now_ms,
        ) is None,
    ensures
        ({
            let sid = session.spec_session_id();
            let after = sessions.insert(sid, SessionView { last_sequence: sequence, ..sessions[sid] });
            &&& message_precheck(
                after,
                launch_id,
                session,
                protocol_version,
                correlation_id,
                sequence,
                proof_len,
                now_ms,
            ) is None
            &&& sequence <= after[sid].last_sequence
        }),
{
}

/// The audit log never holds more than `AUTH_MAX_AUDIT_EVENTS` records, and
/// the newest record is always kept.
pub proof fn lemma_audit_log_bounded(log: Seq<AuditView>, e: AuditView)
    requires
        log.len() <= AUTH_MAX_AUDIT_EVENTS,
    ensures
        push_bounded(log, e).len() <= AUTH_MAX_AUDIT_EVENTS,
        push_bounded(log, e).last() == e,
{
}

} // verus!
