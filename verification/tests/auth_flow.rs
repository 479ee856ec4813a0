use std::sync::atomic::{AtomicU8, Ordering};

use naveen_ai_host::auth::{
    check_message, check_proof, challenge_transcript, message_transcript, session_key_material, test_session, AuthChallenge,
    AuthCrypto, AuthError, AuthenticatedSession, AuthenticationProvider, AuthenticationServer,
    ChallengeResponse, LaunchId, PlatformCrypto, AUTH_PROOF_LEN, AUTH_PROTOCOL_VERSION,
    AUTH_SESSION_ID_LEN, CORE_CLIENT_ID,
};
use naveen_ai_host::encoding::hex_encode;

#[derive(Default)]
struct DeterministicCrypto {
    counter: AtomicU8,
}

impl AuthCrypto for DeterministicCrypto {
    fn fill_random(&self, output: &mut [u8]) -> Result<(), AuthError> {
        let start = self.counter.fetch_add(1, Ordering::Relaxed);
        for (index, byte) in output.iter_mut().enumerate() {
            *byte = start.wrapping_add(index as u8).wrapping_add(1);
        }
        Ok(())
    }

    fn hmac_sha256(&self, key: &[u8], message: &[u8]) -> Result<[u8; 32], AuthError> {
        let mut state = 0x243F_6A88_85A3_08D3_u64;
        for byte in key.iter().chain(message.iter()) {
            state ^= u64::from(*byte);
            state = state.rotate_left(7).wrapping_mul(0x9E37_79B9_7F4A_7C15);
        }

        let mut output = [0_u8; 32];
        for (index, byte) in output.iter_mut().enumerate() {
            state ^= u64::from(index as u8);
            state = state.rotate_left(11).wrapping_mul(0xD6E8_FEB8_6659_FD93);
            *byte = (state >> ((index % 8) * 8)) as u8;
        }
        Ok(output)
    }
}

fn server() -> AuthenticationServer<DeterministicCrypto> {
    AuthenticationServer::with_crypto(DeterministicCrypto::default(), CORE_CLIENT_ID)
        .expect("server")
}

fn proof_for_test(
    server: &AuthenticationServer<DeterministicCrypto>,
    challenge: &AuthChallenge,
    client_id: &str,
) -> [u8; AUTH_PROOF_LEN] {
    let transcript = challenge_transcript(&AuthChallenge {
        expected_client_id: client_id.to_string(),
        ..challenge.clone()
    });
    DeterministicCrypto::default()
        .hmac_sha256(&server.bootstrap_secret(), &transcript)
        .expect("test crypto")
}

/// The proof of a session message, computed the way the Core does: the
/// session key from the secret and the completed challenge, then the HMAC of
/// the message transcript under it.
fn session_message_proof_for_test(
    server: &AuthenticationServer<DeterministicCrypto>,
    challenge: &AuthChallenge,
    session: &AuthenticatedSession,
    protocol_version: u16,
    correlation_id: &str,
    sequence: u64,
    message_digest: &[u8],
) -> [u8; AUTH_PROOF_LEN] {
    let crypto = DeterministicCrypto::default();
    let transcript = challenge_transcript(challenge);
    let material = session_key_material(&transcript, &session.session_id());
    let key = crypto
        .hmac_sha256(&server.bootstrap_secret(), &material)
        .expect("test crypto");
    let message = message_transcript(
        protocol_version,
        &session.session_id(),
        correlation_id,
        sequence,
        message_digest,
    );
    crypto.hmac_sha256(&key, &message).expect("test crypto")
}

fn response_for(
    server: &AuthenticationServer<DeterministicCrypto>,
    challenge: &AuthChallenge,
) -> ChallengeResponse {
    ChallengeResponse {
        protocol_version: AUTH_PROTOCOL_VERSION,
        launch_id: challenge.launch_id,
        challenge_id: challenge.challenge_id,
        client_id: challenge.expected_client_id.clone(),
        correlation_id: challenge.correlation_id.clone(),
        proof: proof_for_test(server, challenge, CORE_CLIENT_ID),
    }
}

#[test]
fn valid_challenge_response_establishes_session() {
    let mut server = server();
    let challenge = server
        .issue_challenge(AUTH_PROTOCOL_VERSION, "corr-1", 1_000)
        .expect("challenge");
    let response = response_for(&server, &challenge);

    let session = server
        .complete_challenge(&response, 1_001)
        .expect("session");

    assert!(session.is_active_at(1_001));
    assert_ne!(session.session_id().as_bytes(), &[0_u8; AUTH_SESSION_ID_LEN]);
    assert_eq!(server.take_audit_events().len(), 2);
}

#[test]
fn wrong_client_identity_is_rejected() {
    let mut server = server();
    let challenge = server
        .issue_challenge(AUTH_PROTOCOL_VERSION, "corr-2", 1_000)
        .expect("challenge");
    let mut response = response_for(&server, &challenge);
    response.client_id = "impostor".to_string();

    assert!(matches!(
        server.complete_challenge(&response, 1_001),
        Err(AuthError::ClientIdentityMismatch)
    ));
}

#[test]
fn invalid_proof_is_rejected() {
    let mut server = server();
    let challenge = server
        .issue_challenge(AUTH_PROTOCOL_VERSION, "corr-3", 1_000)
        .expect("challenge");
    let mut response = response_for(&server, &challenge);
    response.proof[0] ^= 0xFF;

    assert!(matches!(
        server.complete_challenge(&response, 1_001),
        Err(AuthError::InvalidProof)
    ));
}

#[test]
fn expired_challenge_is_rejected() {
    let mut server = server();
    let challenge = server
        .issue_challenge(AUTH_PROTOCOL_VERSION, "corr-4", 1_000)
        .expect("challenge");
    let response = response_for(&server, &challenge);

    assert!(matches!(
        server.complete_challenge(&response, challenge.expires_at_ms),
        Err(AuthError::ChallengeExpired)
    ));
}

#[test]
fn consumed_challenge_cannot_be_replayed() {
    let mut server = server();
    let challenge = server
        .issue_challenge(AUTH_PROTOCOL_VERSION, "corr-5", 1_000)
        .expect("challenge");
    let response = response_for(&server, &challenge);
    let _session = server
        .complete_challenge(&response, 1_001)
        .expect("session");

    assert!(matches!(
        server.complete_challenge(&response, 1_002),
        Err(AuthError::ChallengeReplayed)
    ));
}

#[test]
fn wrong_protocol_version_is_rejected() {
    let mut server = server();
    assert!(matches!(
        server.issue_challenge(99, "corr-6", 1_000),
        Err(AuthError::UnsupportedProtocolVersion {
            expected: AUTH_PROTOCOL_VERSION,
            received: 99,
        })
    ));
}

#[test]
fn malformed_correlation_id_is_rejected() {
    let mut server = server();
    assert!(matches!(
        server.issue_challenge(AUTH_PROTOCOL_VERSION, "", 1_000),
        Err(AuthError::MalformedInput("correlation_id"))
    ));
}

#[test]
fn launch_identity_mismatch_is_rejected() {
    let mut server = server();
    let challenge = server
        .issue_challenge(AUTH_PROTOCOL_VERSION, "corr-7", 1_000)
        .expect("challenge");
    let mut response = response_for(&server, &challenge);
    let mut launch_id = *response.launch_id.as_bytes();
    launch_id[0] ^= 0x01;
    response.launch_id = LaunchId::from_bytes(launch_id);

    assert!(matches!(
        server.complete_challenge(&response, 1_001),
        Err(AuthError::LaunchIdentityMismatch)
    ));
}

#[test]
fn session_message_requires_valid_proof_and_monotonic_sequence() {
    let mut server = server();
    let challenge = server
        .issue_challenge(AUTH_PROTOCOL_VERSION, "corr-8", 1_000)
        .expect("challenge");
    let response = response_for(&server, &challenge);
    let session = server
        .complete_challenge(&response, 1_001)
        .expect("session");
    let digest = b"payload-digest";
    let proof = session_message_proof_for_test(
        &server,
        &challenge,
        &session,
        AUTH_PROTOCOL_VERSION,
        "msg-1",
        1,
        digest,
    );

    server
        .verify_session_message(
            &session,
            AUTH_PROTOCOL_VERSION,
            "msg-1",
            1,
            digest,
            &proof,
            1_002,
        )
        .expect("message accepted");

    assert!(matches!(
        server.verify_session_message(
            &session,
            AUTH_PROTOCOL_VERSION,
            "msg-1",
            1,
            digest,
            &proof,
            1_003,
        ),
        Err(AuthError::ReplayDetected)
    ));
}

#[test]
fn expired_session_is_rejected_and_revoked() {
    let mut server = server();
    let challenge = server
        .issue_challenge(AUTH_PROTOCOL_VERSION, "corr-9", 1_000)
        .expect("challenge");
    let response = response_for(&server, &challenge);
    let session = server
        .complete_challenge(&response, 1_001)
        .expect("session");
    let digest = b"payload-digest";
    let proof = session_message_proof_for_test(
        &server,
        &challenge,
        &session,
        AUTH_PROTOCOL_VERSION,
        "msg-2",
        1,
        digest,
    );

    assert!(matches!(
        server.verify_session_message(
            &session,
            AUTH_PROTOCOL_VERSION,
            "msg-2",
            1,
            digest,
            &proof,
            session.expires_at_ms(),
        ),
        Err(AuthError::SessionExpired)
    ));
    assert!(!session.is_active_at(session.expires_at_ms()));
}

#[test]
fn explicit_invalidation_blocks_later_use() {
    let mut server = server();
    let challenge = server
        .issue_challenge(AUTH_PROTOCOL_VERSION, "corr-10", 1_000)
        .expect("challenge");
    let response = response_for(&server, &challenge);
    let session = server
        .complete_challenge(&response, 1_001)
        .expect("session");
    assert!(server.invalidate_session(&session, 1_002));

    assert!(matches!(
        server.verify_session_message(
            &session,
            AUTH_PROTOCOL_VERSION,
            "msg-3",
            1,
            b"digest",
            &[0_u8; AUTH_PROOF_LEN],
            1_003,
        ),
        Err(AuthError::SessionRevoked)
    ));
}

#[test]
fn revoked_handles_read_inactive_at_every_time() {
    let mut server = server();
    let challenge = server
        .issue_challenge(AUTH_PROTOCOL_VERSION, "corr-20", 1_000)
        .expect("challenge");
    let response = response_for(&server, &challenge);
    let session = server
        .complete_challenge(&response, 1_001)
        .expect("session");
    let copy = session.clone();
    assert!(session.is_active_at(1_002));
    assert!(server.is_session_active(&session, 1_002));
    assert!(server.invalidate_session(&session, 1_002));
    assert!(!session.is_active_at(1_002));
    assert!(!copy.is_active_at(1_001));
    assert!(!server.is_session_active(&session, 1_002));
    assert!(!server.invalidate_session(&session, 1_003));

    let challenge = server
        .issue_challenge(AUTH_PROTOCOL_VERSION, "corr-21", 2_000)
        .expect("challenge");
    let response = response_for(&server, &challenge);
    let expiring = server
        .complete_challenge(&response, 2_001)
        .expect("session");
    assert_eq!(
        server.verify_session_message(
            &expiring,
            AUTH_PROTOCOL_VERSION,
            "msg-21",
            1,
            b"digest",
            &[0_u8; AUTH_PROOF_LEN],
            expiring.expires_at_ms(),
        ),
        Err(AuthError::SessionExpired)
    );
    assert!(!expiring.is_active_at(2_002));
}

#[test]
fn old_session_is_not_valid_in_a_new_launch() {
    let mut first = server();
    let challenge = first
        .issue_challenge(AUTH_PROTOCOL_VERSION, "corr-11", 1_000)
        .expect("challenge");
    let response = response_for(&first, &challenge);
    let session = first
        .complete_challenge(&response, 1_001)
        .expect("session");

    let mut second = server();

    assert!(matches!(
        second.verify_session_message(
            &session,
            AUTH_PROTOCOL_VERSION,
            "msg-4",
            1,
            b"digest",
            &[0_u8; AUTH_PROOF_LEN],
            1_002,
        ),
        Err(AuthError::UnknownSession)
    ));
}

#[test]
fn malformed_session_message_is_rejected() {
    let mut server = server();
    let challenge = server
        .issue_challenge(AUTH_PROTOCOL_VERSION, "corr-12", 1_000)
        .expect("challenge");
    let response = response_for(&server, &challenge);
    let session = server
        .complete_challenge(&response, 1_001)
        .expect("session");

    assert!(matches!(
        server.verify_session_message(
            &session,
            AUTH_PROTOCOL_VERSION,
            "msg-5",
            0,
            b"digest",
            &[0_u8; AUTH_PROOF_LEN],
            1_002,
        ),
        Err(AuthError::InvalidSequence)
    ));

    assert!(matches!(
        server.verify_session_message(
            &session,
            AUTH_PROTOCOL_VERSION,
            "msg-6",
            1,
            b"digest",
            &[0_u8; AUTH_PROOF_LEN - 1],
            1_003,
        ),
        Err(AuthError::MalformedInput("proof"))
    ));
}

#[test]
fn audit_events_contain_no_challenge_nonce_or_proof() {
    let mut server = server();
    let challenge = server
        .issue_challenge(AUTH_PROTOCOL_VERSION, "corr-13", 1_000)
        .expect("challenge");
    let mut response = response_for(&server, &challenge);
    let nonce_text = hex_encode(&challenge.nonce);
    let proof_text = hex_encode(&response.proof);
    response.proof[0] ^= 1;
    let _ = server.complete_challenge(&response, 1_001);

    let rendered = format!("{:?}", server.take_audit_events());
    assert!(!rendered.contains(&nonce_text));
    assert!(!rendered.contains(&proof_text));
    assert!(!rendered.contains("launch_secret"));
    assert!(!rendered.contains("session_key"));
}

#[test]
fn platform_crypto_without_a_provider_refuses_to_start() {
    assert!(matches!(
        AuthenticationServer::<PlatformCrypto>::new(),
        Err(AuthError::CryptoUnavailable)
    ));
}

#[test]
fn completed_challenge_stays_consumed_at_any_later_time() {
    let mut server = server();
    let challenge = server
        .issue_challenge(AUTH_PROTOCOL_VERSION, "corr-20", 1_000)
        .expect("challenge");
    let response = response_for(&server, &challenge);
    server.complete_challenge(&response, 1_001).expect("session");
    assert!(matches!(
        server.complete_challenge(&response, 1_001),
        Err(AuthError::ChallengeReplayed)
    ));
}

#[test]
fn session_sequences_must_increase() {
    let mut server = server();
    let challenge = server
        .issue_challenge(AUTH_PROTOCOL_VERSION, "corr-21", 1_000)
        .expect("challenge");
    let response = response_for(&server, &challenge);
    let session = server.complete_challenge(&response, 1_001).expect("session");
    let digest = b"d";
    let proof_5 =
        session_message_proof_for_test(&server, &challenge, &session, 1, "m", 5, digest);
    server
        .verify_session_message(&session, 1, "m", 5, digest, &proof_5, 1_002)
        .expect("first message");
    let proof_4 =
        session_message_proof_for_test(&server, &challenge, &session, 1, "m", 4, digest);
    assert!(matches!(
        server.verify_session_message(&session, 1, "m", 4, digest, &proof_4, 1_003),
        Err(AuthError::ReplayDetected)
    ));
    let proof_6 =
        session_message_proof_for_test(&server, &challenge, &session, 1, "m", 6, digest);
    assert!(server
        .verify_session_message(&session, 1, "m", 6, digest, &proof_6, 1_004)
        .is_ok());
}

#[test]
fn invalidate_all_revokes_every_session() {
    let mut server = server();
    let c1 = server.issue_challenge(1, "corr-22", 1_000).expect("challenge");
    let s1 = server.complete_challenge(&response_for(&server, &c1), 1_001).expect("s1");
    let c2 = server.issue_challenge(1, "corr-23", 1_000).expect("challenge");
    let s2 = server.complete_challenge(&response_for(&server, &c2), 1_001).expect("s2");
    server.invalidate_all_sessions(1_002);
    assert!(!server.is_session_active(&s1, 1_003));
    assert!(!server.is_session_active(&s2, 1_003));
    assert!(!server.invalidate_session(&s1, 1_004));
}

#[test]
fn unknown_challenge_is_rejected() {
    let mut server = server();
    let challenge = server.issue_challenge(1, "corr-24", 1_000).expect("challenge");
    let mut response = response_for(&server, &challenge);
    let mut id = *response.challenge_id.as_bytes();
    id[0] ^= 0x80;
    response.challenge_id = naveen_ai_host::auth::ChallengeId::from_bytes(id);
    assert!(matches!(
        server.complete_challenge(&response, 1_001),
        Err(AuthError::UnknownChallenge)
    ));
}

#[test]
fn correlation_mismatch_is_rejected() {
    let mut server = server();
    let challenge = server.issue_challenge(1, "corr-25", 1_000).expect("challenge");
    let mut response = response_for(&server, &challenge);
    response.correlation_id = "corr-other".to_string();
    assert!(matches!(
        server.complete_challenge(&response, 1_001),
        Err(AuthError::CorrelationMismatch)
    ));
}

#[test]
fn test_session_handle_has_fixed_identity() {
    let session = test_session(10);
    assert_eq!(session.session_id().as_bytes(), &[0xA5_u8; 16]);
    assert!(session.is_active_at(9));
    assert!(!session.is_active_at(10));
    assert_eq!(session.session_id().to_hex(), "a5".repeat(16));
}

#[test]
fn proofs_are_judged_against_the_provider_digest() {
    assert_eq!(check_proof(Ok([1; 32]), &[1; 32]), Ok(()));
    assert_eq!(check_proof(Ok([1; 32]), &[2; 32]), Err(AuthError::InvalidProof));
    assert_eq!(check_proof(Ok([1; 32]), &[1; 31]), Err(AuthError::InvalidProof));
    assert_eq!(
        check_proof(Err(AuthError::CryptoFailure), &[1; 32]),
        Err(AuthError::CryptoFailure)
    );
    assert_eq!(check_message(Ok([1; 32]), &[1; 32], 4, 3), Ok(()));
    assert_eq!(check_message(Ok([1; 32]), &[1; 32], 3, 3), Err(AuthError::ReplayDetected));
    assert_eq!(check_message(Ok([1; 32]), &[1; 32], 2, 3), Err(AuthError::ReplayDetected));
    assert_eq!(check_message(Ok([1; 32]), &[9; 32], 2, 3), Err(AuthError::InvalidProof));
    assert_eq!(
        check_message(Err(AuthError::CryptoUnavailable), &[1; 32], 4, 3),
        Err(AuthError::CryptoUnavailable)
    );
}
