use std::sync::atomic::{AtomicU8, Ordering};
use std::time::Duration;

use naveen_ai_host::auth::{
    test_session, AuthChallenge, AuthCrypto, AuthError, AuthenticatedSession,
    AuthenticationProvider, AuthenticationServer, ChallengeId, ChallengeResponse, LaunchId,
    AUTH_PROTOCOL_VERSION, CORE_CLIENT_ID,
};
use naveen_ai_host::core_supervisor::{
    after_connection_ends, answer_heartbeat, inbound_from, array_16, array_32, begin_handshake, bootstrap_message, finish_handshake, capability_decision, capability_refusal,
    capability_result_event_id, challenge_to_wire, command_correlation_id, frame_control, liveness_verdict,
    host_command, prepare_text_command, response_from_wire, route_request, screen_request,
    send_core_event, send_response, session_message, unframe_control, CoreControlMessage,
    CoreEventRoute, CoreInbound, CoreLinkState, CoreRequestRoute, CoreSupervisorError,
    ReconnectBackoff, SupervisorStep,
};
use naveen_ai_host::ipc::{
    EventEnvelope, IpcCodec, IpcEnvelope, IpcError, IpcTransport, MemoryTransport,
    RequestEnvelope, ResponseStatus,
};
use naveen_ai_host::security::{
    CapabilityPolicy, Permission, RiskLevel, SecurityDecision, SecurityDenial, SecurityGateway,
};

/// A codec that writes every envelope as one byte and reads that byte back
/// as the envelope it was built with.
struct OneEnvelopeCodec {
    envelope: IpcEnvelope,
}

impl IpcCodec for OneEnvelopeCodec {
    fn encode(&self, _envelope: &IpcEnvelope) -> Result<Vec<u8>, IpcError> {
        Ok(vec![1])
    }

    fn decode(&self, body: &[u8]) -> Result<IpcEnvelope, IpcError> {
        if body == [1] {
            Ok(self.envelope.clone())
        } else {
            Err(IpcError::MalformedFrame("decode"))
        }
    }
}

struct Verdict(Option<AuthError>);

impl AuthenticationProvider for Verdict {
    fn issue_challenge(&mut self, _: u16, _: &str, _: u64) -> Result<AuthChallenge, AuthError> {
        Err(AuthError::CryptoFailure)
    }

    fn complete_challenge(
        &mut self,
        _: &ChallengeResponse,
        _: u64,
    ) -> Result<AuthenticatedSession, AuthError> {
        Err(AuthError::CryptoFailure)
    }

    fn verify_session_message(
        &mut self,
        _: &AuthenticatedSession,
        _: u16,
        _: &str,
        _: u64,
        _: &[u8],
        _: &[u8],
        _: u64,
    ) -> Result<(), AuthError> {
        match self.0.take() {
            Some(e) => Err(e),
            None => Ok(()),
        }
    }

    fn invalidate_session(&mut self, _: &AuthenticatedSession, _: u64) -> bool {
        false
    }

    fn invalidate_all_sessions(&mut self, _: u64) {}
}

fn session_bytes() -> [u8; 16] {
    *test_session(10_000).session_id().as_bytes()
}

fn event(sequence: u64, event_type: &str) -> EventEnvelope {
    EventEnvelope {
        protocol_version: 1,
        event_id: format!("ev-{sequence}"),
        session_id: session_bytes(),
        sequence,
        event_type: event_type.to_string(),
        payload: b"{}".to_vec(),
        proof: None,
    }
}

fn core_request(method: &str, payload: &[u8]) -> RequestEnvelope {
    RequestEnvelope {
        protocol_version: 1,
        correlation_id: "core-1".to_string(),
        session_id: session_bytes(),
        sequence: 1,
        method: method.to_string(),
        payload: payload.to_vec(),
        proof: vec![0; 32],
    }
}

#[test]
fn text_commands_are_trimmed_and_bounded() {
    assert_eq!(prepare_text_command("  hello \n"), Ok("hello".to_string()));
    assert_eq!(
        prepare_text_command(" \t "),
        Err("command is empty or too large".to_string())
    );
    assert_eq!(
        prepare_text_command(&"a".repeat(8193)),
        Err("command is empty or too large".to_string())
    );
    assert!(prepare_text_command(&"a".repeat(8192)).is_ok());
}

#[test]
fn command_correlation_ids_count_in_decimal() {
    assert_eq!(command_correlation_id(0), "ui-0");
    assert_eq!(command_correlation_id(1), "ui-1");
    assert_eq!(command_correlation_id(907), "ui-907");
    assert_eq!(command_correlation_id(u64::MAX), format!("ui-{}", u64::MAX));
    let command = host_command(12, "hi".to_string());
    assert_eq!(command.correlation_id, "ui-12");
    assert_eq!(command.text, "hi");
}

#[test]
fn backoff_doubles_to_its_cap_and_resets_after_a_clean_run() {
    let mut backoff = ReconnectBackoff::new();
    let waits: Vec<u64> = (0..7).map(|_| backoff.after_connection(false)).collect();
    assert_eq!(waits, vec![1, 2, 4, 8, 16, 30, 30]);
    assert_eq!(backoff.after_connection(true), 1);
    assert_eq!(backoff.after_connection(false), 2);
}

#[test]
fn events_must_belong_to_the_session_and_move_forward() {
    let session = test_session(10_000);
    let mut link = CoreLinkState::new();
    assert_eq!(
        link.accept_event(&session, &event(2, "core.status")),
        Ok(CoreEventRoute::ForwardToUi)
    );
    assert_eq!(
        link.accept_event(&session, &event(2, "core.status")),
        Err(CoreSupervisorError::Authentication)
    );
    assert_eq!(
        link.accept_event(&session, &event(1, "core.response")),
        Err(CoreSupervisorError::Authentication)
    );
    assert_eq!(
        link.accept_event(&session, &event(3, "capability.request")),
        Ok(CoreEventRoute::CapabilityRequest)
    );
    assert_eq!(
        link.accept_event(&session, &event(4, "core.unknown")),
        Err(CoreSupervisorError::Protocol)
    );
    let mut foreign = event(9, "core.error");
    foreign.session_id = [0; 16];
    assert_eq!(
        link.accept_event(&session, &foreign),
        Err(CoreSupervisorError::Authentication)
    );
    assert_eq!(
        link.accept_event(&session, &event(5, "core.error")),
        Ok(CoreEventRoute::ForwardToUi)
    );
}

#[test]
fn outgoing_sequences_count_up_from_one() {
    let mut link = CoreLinkState::new();
    assert_eq!(link.next_outgoing_sequence(), 1);
    assert_eq!(link.next_outgoing_sequence(), 2);
    assert_eq!(link.next_outgoing_sequence(), 3);
}

#[test]
fn four_silent_polls_end_the_link_and_a_frame_resets_the_count() {
    let codec = OneEnvelopeCodec {
        envelope: IpcEnvelope::Event(event(1, "core.status")),
    };
    let mut link = CoreLinkState::new();
    for _ in 0..3 {
        assert!(matches!(link.on_poll(&codec, Err(IpcError::Timeout)), Ok(CoreInbound::Idle)));
    }
    assert!(matches!(
        link.on_poll(&codec, Ok(vec![0, 0, 0, 1, 1])),
        Ok(CoreInbound::Event(_))
    ));
    for _ in 0..3 {
        assert!(matches!(link.on_poll(&codec, Err(IpcError::Timeout)), Ok(CoreInbound::Idle)));
    }
    assert!(matches!(
        link.on_poll(&codec, Err(IpcError::Timeout)),
        Err(CoreSupervisorError::HeartbeatTimeout)
    ));
}

#[test]
fn poll_failures_are_classified() {
    let response_codec = OneEnvelopeCodec {
        envelope: IpcEnvelope::Request(core_request("core.health", b"heartbeat")),
    };
    let mut link = CoreLinkState::new();
    assert!(matches!(
        link.on_poll(&response_codec, Err(IpcError::Closed)),
        Err(CoreSupervisorError::Transport)
    ));
    assert!(matches!(
        link.on_poll(&response_codec, Ok(vec![0, 0, 0, 2, 1])),
        Err(CoreSupervisorError::Protocol)
    ));
    assert!(matches!(
        link.on_poll(&response_codec, Ok(vec![0, 0, 0, 1, 7])),
        Err(CoreSupervisorError::Protocol)
    ));
    assert!(matches!(
        link.on_poll(&response_codec, Ok(vec![0, 0, 0, 1, 1])),
        Ok(CoreInbound::Request(_))
    ));
}

#[test]
fn requests_are_routed_by_method() {
    assert_eq!(
        route_request(&core_request("core.health", b"heartbeat")),
        Ok(CoreRequestRoute::Heartbeat)
    );
    assert_eq!(
        route_request(&core_request("core.health", b"other")),
        Err(CoreSupervisorError::Protocol)
    );
    assert_eq!(
        route_request(&core_request("core.capability.request", b"{}")),
        Ok(CoreRequestRoute::CapabilityRequest)
    );
    assert_eq!(
        route_request(&core_request("core.other", b"")),
        Err(CoreSupervisorError::Protocol)
    );
}

#[test]
fn requests_are_screened_before_routing() {
    let session = test_session(10_000);
    let request = core_request("core.health", b"heartbeat");
    assert_eq!(
        screen_request(&mut Verdict(None), &session, &request, 1),
        Ok(CoreRequestRoute::Heartbeat)
    );
    assert_eq!(
        screen_request(&mut Verdict(Some(AuthError::InvalidProof)), &session, &request, 1),
        Err(CoreSupervisorError::Authentication)
    );
    let mut foreign = request.clone();
    foreign.session_id = [7; 16];
    assert_eq!(
        screen_request(&mut Verdict(None), &session, &foreign, 1),
        Err(CoreSupervisorError::Authentication)
    );
    let mut malformed = request;
    malformed.sequence = 0;
    assert_eq!(
        screen_request(&mut Verdict(None), &session, &malformed, 1),
        Err(CoreSupervisorError::Protocol)
    );
}

#[test]
fn core_events_and_responses_go_out_framed() {
    let session = test_session(10_000);
    let codec = OneEnvelopeCodec {
        envelope: IpcEnvelope::Event(event(1, "x")),
    };
    let (mut host_end, mut core_end) = MemoryTransport::pair();
    send_core_event(
        &mut host_end,
        &codec,
        &session,
        5,
        "ui-1".to_string(),
        "core.input.text",
        b"{}".to_vec(),
    )
    .expect("event");
    assert_eq!(core_end.recv_frame(Duration::from_millis(50)), Ok(vec![0, 0, 0, 1, 1]));
    assert_eq!(
        send_core_event(
            &mut host_end,
            &codec,
            &session,
            0,
            "ui-2".to_string(),
            "core.input.text",
            vec![],
        ),
        Err(CoreSupervisorError::Protocol)
    );
    send_response(
        &mut host_end,
        &codec,
        &session,
        core_request("core.health", b"heartbeat"),
        ResponseStatus::Success,
        None,
        b"alive".to_vec(),
    )
    .expect("response");
    assert_eq!(
        send_response(
            &mut host_end,
            &codec,
            &session,
            core_request("core.health", b"heartbeat"),
            ResponseStatus::Error,
            None,
            vec![],
        ),
        Err(CoreSupervisorError::Protocol)
    );
    core_end.shutdown().expect("shutdown");
    drop(core_end);
    assert_eq!(
        send_core_event(
            &mut host_end,
            &codec,
            &session,
            6,
            "ui-3".to_string(),
            "core.input.text",
            vec![],
        ),
        Err(CoreSupervisorError::Transport)
    );
}

/// Random bytes from a counter and a constant keyed digest, so that a proof
/// of all sevens always matches.
#[derive(Default)]
struct ConstantDigestCrypto {
    counter: AtomicU8,
}

impl AuthCrypto for ConstantDigestCrypto {
    fn fill_random(&self, output: &mut [u8]) -> Result<(), AuthError> {
        let start = self.counter.fetch_add(1, Ordering::Relaxed);
        for (index, byte) in output.iter_mut().enumerate() {
            *byte = start.wrapping_add(index as u8).wrapping_add(1);
        }
        Ok(())
    }

    fn hmac_sha256(&self, _key: &[u8], _message: &[u8]) -> Result<[u8; 32], AuthError> {
        Ok([7; 32])
    }
}

fn server_with_session() -> (AuthenticationServer<ConstantDigestCrypto>, AuthenticatedSession) {
    let mut server =
        AuthenticationServer::with_crypto(ConstantDigestCrypto::default(), CORE_CLIENT_ID)
            .expect("server");
    let challenge = server
        .issue_challenge(AUTH_PROTOCOL_VERSION, "corr-cap", 1_000)
        .expect("challenge");
    let response = ChallengeResponse {
        protocol_version: AUTH_PROTOCOL_VERSION,
        launch_id: challenge.launch_id,
        challenge_id: challenge.challenge_id,
        client_id: challenge.expected_client_id.clone(),
        correlation_id: challenge.correlation_id.clone(),
        proof: [7; 32],
    };
    let session = server.complete_challenge(&response, 1_001).expect("session");
    (server, session)
}

#[test]
fn capability_decisions_follow_the_gateway_and_session_lifetime() {
    let gateway = SecurityGateway::new(vec![
        CapabilityPolicy::new("system.telemetry.read", vec![Permission::SystemTelemetryRead], RiskLevel::Low),
        CapabilityPolicy::new("danger", vec![Permission::ProcessExecute], RiskLevel::High),
    ]);
    let (mut server, session) = server_with_session();
    let expiry = session.expires_at_ms();
    assert_eq!(
        capability_decision(&gateway, &server, &session, 50_000, "system.telemetry.read"),
        SecurityDecision::Allow
    );
    assert_eq!(
        capability_decision(&gateway, &server, &session, expiry, "system.telemetry.read"),
        SecurityDecision::Deny(SecurityDenial::Unauthenticated)
    );
    let confirmation = capability_decision(&gateway, &server, &session, 50_000, "danger");
    assert_eq!(confirmation, SecurityDecision::RequireConfirmation);
    assert_eq!(capability_refusal(&confirmation), Some("confirmation_required"));
    assert_eq!(
        capability_refusal(&capability_decision(&gateway, &server, &session, 50_000, "unknown")),
        Some("capability_denied")
    );
    assert_eq!(capability_refusal(&SecurityDecision::Allow), None);
    assert_eq!(capability_result_event_id("r-7"), "capability-result-r-7");

    let stranger = test_session(expiry);
    assert_eq!(
        capability_decision(&gateway, &server, &stranger, 50_000, "system.telemetry.read"),
        SecurityDecision::Deny(SecurityDenial::Unauthenticated)
    );
    assert!(server.invalidate_session(&session, 2_000));
    assert_eq!(
        capability_decision(&gateway, &server, &session, 50_000, "system.telemetry.read"),
        SecurityDecision::Deny(SecurityDenial::Unauthenticated)
    );
}

#[test]
fn handshake_messages_carry_their_fields() {
    let launch = LaunchId::from_bytes([3; 16]);
    match bootstrap_message(&launch, &[4; 32]) {
        CoreControlMessage::AuthBootstrap { ipc_protocol_version, launch_id, launch_secret } => {
            assert_eq!(ipc_protocol_version, 1);
            assert_eq!(launch_id, vec![3; 16]);
            assert_eq!(launch_secret, vec![4; 32]);
        }
        _ => panic!("wrong message"),
    }
    let challenge = AuthChallenge {
        protocol_version: 1,
        launch_id: launch,
        challenge_id: ChallengeId::from_bytes([5; 16]),
        nonce: [6; 32],
        issued_at_ms: 10,
        expires_at_ms: 20,
        expected_client_id: "naveen-ai-core".to_string(),
        correlation_id: "core-auth-1".to_string(),
    };
    match challenge_to_wire(&challenge) {
        CoreControlMessage::AuthChallenge { challenge_id, nonce, expires_at_ms, correlation_id, .. } => {
            assert_eq!(challenge_id, vec![5; 16]);
            assert_eq!(nonce, vec![6; 32]);
            assert_eq!(expires_at_ms, 20);
            assert_eq!(correlation_id, "core-auth-1");
        }
        _ => panic!("wrong message"),
    }
    let session = test_session(77);
    match session_message(&session, "core-auth-1".to_string()) {
        CoreControlMessage::AuthSession { session_id, expires_at_ms, auth_protocol_version, .. } => {
            assert_eq!(session_id, vec![0xA5; 16]);
            assert_eq!(expires_at_ms, 77);
            assert_eq!(auth_protocol_version, 1);
        }
        _ => panic!("wrong message"),
    }
}

#[test]
fn handshake_answers_are_checked() {
    let answer = |ipc: u16, auth: u16, proof_len: usize| CoreControlMessage::AuthResponse {
        ipc_protocol_version: ipc,
        auth_protocol_version: auth,
        launch_id: vec![1; 16],
        challenge_id: vec![2; 16],
        client_id: "naveen-ai-core".to_string(),
        correlation_id: "c".to_string(),
        proof: vec![3; proof_len],
    };
    let response = response_from_wire(answer(1, 1, 32)).expect("response");
    assert_eq!(response.launch_id.as_bytes(), &[1; 16]);
    assert_eq!(response.challenge_id.as_bytes(), &[2; 16]);
    assert_eq!(response.proof, [3; 32]);
    assert!(matches!(
        response_from_wire(answer(2, 1, 32)),
        Err(CoreSupervisorError::Handshake)
    ));
    assert!(matches!(
        response_from_wire(answer(1, 1, 31)),
        Err(CoreSupervisorError::Handshake)
    ));
    assert!(matches!(
        response_from_wire(bootstrap_message(&LaunchId::from_bytes([0; 16]), &[0; 32])),
        Err(CoreSupervisorError::Handshake)
    ));
    assert_eq!(array_16(&[9; 16]), Ok([9; 16]));
    assert_eq!(array_16(&[9; 15]), Err(CoreSupervisorError::Handshake));
    assert_eq!(array_32(&[8; 33]), Err(CoreSupervisorError::Handshake));
}

#[test]
fn control_frames_are_length_delimited() {
    assert_eq!(frame_control(b"ab".to_vec()), Ok(vec![0, 0, 0, 2, b'a', b'b']));
    assert_eq!(frame_control(vec![]), Err(CoreSupervisorError::Protocol));
    assert_eq!(unframe_control(Ok(vec![0, 0, 0, 2, b'a', b'b'])), Ok(b"ab".to_vec()));
    assert_eq!(unframe_control(Err(IpcError::Timeout)), Err(CoreSupervisorError::Handshake));
    assert_eq!(unframe_control(Ok(vec![0, 0, 0])), Err(CoreSupervisorError::Handshake));
    assert_eq!(unframe_control(Ok(vec![0, 0, 0, 3, 1])), Err(CoreSupervisorError::Protocol));
    assert_eq!(unframe_control(Ok(vec![0, 0, 0, 0])), Err(CoreSupervisorError::Protocol));
}

#[test]
fn each_round_first_checks_stop_and_the_child() {
    assert_eq!(liveness_verdict(true, Ok(false)), Some(Ok(())));
    assert_eq!(
        liveness_verdict(false, Ok(false)),
        Some(Err(CoreSupervisorError::ChildExited))
    );
    assert_eq!(
        liveness_verdict(false, Err(CoreSupervisorError::ProcessLaunch)),
        Some(Err(CoreSupervisorError::ProcessLaunch))
    );
    assert_eq!(liveness_verdict(false, Ok(true)), None);
}

#[test]
fn a_failed_connection_revokes_every_session_before_the_wait() {
    let (mut server, session) = server_with_session();
    let mut backoff = ReconnectBackoff::new();
    assert_eq!(
        after_connection_ends(&mut server, &mut backoff, Ok(()), false, 2_000),
        SupervisorStep::Retry { wait_secs: 1 }
    );
    assert!(server.is_session_active(&session, 2_000));
    assert_eq!(
        after_connection_ends(
            &mut server,
            &mut backoff,
            Err(CoreSupervisorError::Transport),
            false,
            3_000
        ),
        SupervisorStep::Retry { wait_secs: 2 }
    );
    assert!(!server.is_session_active(&session, 3_000));
    assert!(!session.is_active_at(3_000));
    assert_eq!(
        after_connection_ends(
            &mut server,
            &mut backoff,
            Err(CoreSupervisorError::HeartbeatTimeout),
            false,
            4_000
        ),
        SupervisorStep::Retry { wait_secs: 4 }
    );
    assert_eq!(
        after_connection_ends(&mut server, &mut backoff, Ok(()), true, 5_000),
        SupervisorStep::Stop
    );
}

#[test]
fn handshake_opens_with_bootstrap_and_a_pending_challenge_and_closes_with_the_session() {
    let mut server =
        AuthenticationServer::with_crypto(ConstantDigestCrypto::default(), CORE_CLIENT_ID)
            .expect("server");
    assert_eq!(
        begin_handshake(&mut server, "", 1_000).map(|_| ()),
        Err(CoreSupervisorError::Authentication)
    );
    let (bootstrap, challenge) = begin_handshake(&mut server, "core-auth-1", 1_000).expect("open");
    match bootstrap {
        CoreControlMessage::AuthBootstrap { launch_id, launch_secret, .. } => {
            assert_eq!(launch_id, server.launch_id().as_bytes().to_vec());
            assert_eq!(launch_secret, server.bootstrap_secret().to_vec());
        }
        other => panic!("unexpected {other:?}"),
    }
    let (launch_id, challenge_id) = match challenge {
        CoreControlMessage::AuthChallenge { launch_id, challenge_id, correlation_id, issued_at_ms, .. } => {
            assert_eq!(correlation_id, "core-auth-1");
            assert_eq!(issued_at_ms, 1_000);
            (launch_id, challenge_id)
        }
        other => panic!("unexpected {other:?}"),
    };
    let answer = |proof: Vec<u8>| CoreControlMessage::AuthResponse {
        ipc_protocol_version: 1,
        auth_protocol_version: AUTH_PROTOCOL_VERSION,
        launch_id: launch_id.clone(),
        challenge_id: challenge_id.clone(),
        client_id: CORE_CLIENT_ID.to_string(),
        correlation_id: "core-auth-1".to_string(),
        proof,
    };
    assert_eq!(
        finish_handshake(&mut server, answer(vec![8; 32]), "core-auth-1".to_string(), 1_001)
            .map(|_| ()),
        Err(CoreSupervisorError::Authentication)
    );
    assert_eq!(
        finish_handshake(&mut server, answer(vec![7; 31]), "core-auth-1".to_string(), 1_001)
            .map(|_| ()),
        Err(CoreSupervisorError::Handshake)
    );
    let (session, announcement) =
        finish_handshake(&mut server, answer(vec![7; 32]), "core-auth-1".to_string(), 1_001)
            .expect("session");
    assert!(server.is_session_active(&session, 1_002));
    match announcement {
        CoreControlMessage::AuthSession { session_id, expires_at_ms, correlation_id, .. } => {
            assert_eq!(session_id, session.session_id().as_bytes().to_vec());
            assert_eq!(expires_at_ms, session.expires_at_ms());
            assert_eq!(correlation_id, "core-auth-1");
        }
        other => panic!("unexpected {other:?}"),
    }
    assert_eq!(
        finish_handshake(&mut server, answer(vec![7; 32]), "core-auth-1".to_string(), 1_002)
            .map(|_| ()),
        Err(CoreSupervisorError::Authentication)
    );
}

#[test]
fn decoded_envelopes_are_sorted_for_the_link() {
    let request = core_request("core.health", b"heartbeat");
    assert!(matches!(
        inbound_from(Ok(IpcEnvelope::Request(request.clone()))),
        Ok(CoreInbound::Request(q)) if q == request
    ));
    let short_proof = RequestEnvelope { proof: vec![0; 3], ..request.clone() };
    assert!(matches!(
        inbound_from(Ok(IpcEnvelope::Request(short_proof))),
        Err(CoreSupervisorError::Protocol)
    ));
    assert!(matches!(
        inbound_from(Err(IpcError::MalformedFrame("decode"))),
        Err(CoreSupervisorError::Protocol)
    ));
    let response = naveen_ai_host::ipc::ResponseEnvelope {
        protocol_version: 1,
        correlation_id: "core-1".to_string(),
        session_id: session_bytes(),
        sequence: 1,
        status: ResponseStatus::Success,
        error_code: None,
        payload: vec![],
        proof: None,
    };
    assert!(matches!(
        inbound_from(Ok(IpcEnvelope::Response(response))),
        Err(CoreSupervisorError::Protocol)
    ));
}

/// A codec that keeps every envelope it is asked to encode.
#[derive(Default)]
struct RecordingCodec {
    seen: std::cell::RefCell<Vec<IpcEnvelope>>,
}

impl IpcCodec for RecordingCodec {
    fn encode(&self, envelope: &IpcEnvelope) -> Result<Vec<u8>, IpcError> {
        self.seen.borrow_mut().push(envelope.clone());
        Ok(vec![1])
    }

    fn decode(&self, _body: &[u8]) -> Result<IpcEnvelope, IpcError> {
        Err(IpcError::MalformedFrame("decode"))
    }
}

#[test]
fn heartbeats_are_answered_alive_with_the_request_correlation() {
    let (mut host_end, mut core_end) = MemoryTransport::pair();
    let codec = RecordingCodec::default();
    let session = test_session(10_000_000);
    let request = RequestEnvelope { sequence: 7, ..core_request("core.health", b"heartbeat") };
    answer_heartbeat(&mut host_end, &codec, &session, request.clone()).expect("answer");
    assert_eq!(core_end.recv_frame(Duration::from_millis(50)), Ok(vec![0, 0, 0, 1, 1]));
    let seen = codec.seen.borrow();
    match &seen[0] {
        IpcEnvelope::Response(response) => {
            assert_eq!(response.correlation_id, request.correlation_id);
            assert_eq!(response.sequence, 7);
            assert_eq!(response.session_id, *session.session_id().as_bytes());
            assert_eq!(response.status, ResponseStatus::Success);
            assert_eq!(response.error_code, None);
            assert_eq!(response.payload, b"alive".to_vec());
            assert_eq!(response.proof, None);
        }
        other => panic!("unexpected {other:?}"),
    }
    drop(seen);
    assert_eq!(
        answer_heartbeat(&mut host_end, &codec, &session, RequestEnvelope { sequence: 0, ..request }),
        Err(CoreSupervisorError::Protocol)
    );
}
