use std::time::Duration;

use serde_json::Value;

use naveen_ai_host::auth::{
    test_session, AuthChallenge, AuthError, AuthenticatedSession, AuthenticationProvider,
    ChallengeResponse, AUTH_PROOF_LEN,
};
use naveen_ai_host::ipc::{
    canonical_message_material, decode_frame, encode_frame, frame_body, unframe_body,
    AuthenticatedCoreChannel, EventEnvelope, IpcAuditEventType, IpcAuditReason, IpcCodec,
    IpcConnection, IpcEnvelope, IpcError, IpcMessageKind, IpcTransport, MemoryTransport,
    PendingRequests, RequestEnvelope, ResponseEnvelope, ResponseStatus,
    IPC_DEFAULT_TIMEOUT_SECS, IPC_PROTOCOL_VERSION,
};

const SESSION_ID_LEN: usize = 16;

/// The JSON wire format the host and the Core share: an envelope is an
/// object tagged by `kind`, its fields under `message`.
#[derive(Debug, Clone, Copy, Default)]
struct JsonIpcCodec;

fn bytes_value(bytes: &[u8]) -> Value {
    Value::Array(bytes.iter().map(|b| Value::from(*b)).collect())
}

fn value_bytes(value: &Value) -> Option<Vec<u8>> {
    value
        .as_array()?
        .iter()
        .map(|item| item.as_u64().and_then(|n| u8::try_from(n).ok()))
        .collect()
}

fn value_session(value: &Value) -> Option<[u8; SESSION_ID_LEN]> {
    value_bytes(value)?.try_into().ok()
}

fn status_name(status: ResponseStatus) -> &'static str {
    match status {
        ResponseStatus::Success => "ok",
        ResponseStatus::Error => "error",
        ResponseStatus::Rejected => "rejected",
    }
}

fn envelope_value(envelope: &IpcEnvelope) -> Value {
    let mut message = serde_json::Map::new();
    let kind = match envelope {
        IpcEnvelope::Request(m) => {
            message.insert("protocol_version".into(), Value::from(m.protocol_version));
            message.insert("correlation_id".into(), Value::from(m.correlation_id.clone()));
            message.insert("session_id".into(), bytes_value(&m.session_id));
            message.insert("sequence".into(), Value::from(m.sequence));
            message.insert("method".into(), Value::from(m.method.clone()));
            message.insert("payload".into(), bytes_value(&m.payload));
            message.insert("proof".into(), bytes_value(&m.proof));
            "Request"
        }
        IpcEnvelope::Response(m) => {
            message.insert("protocol_version".into(), Value::from(m.protocol_version));
            message.insert("correlation_id".into(), Value::from(m.correlation_id.clone()));
            message.insert("session_id".into(), bytes_value(&m.session_id));
            message.insert("sequence".into(), Value::from(m.sequence));
            message.insert("status".into(), Value::from(status_name(m.status)));
            message.insert(
                "error_code".into(),
                m.error_code.clone().map(Value::from).unwrap_or(Value::Null),
            );
            message.insert("payload".into(), bytes_value(&m.payload));
            message.insert(
                "proof".into(),
                m.proof.as_ref().map(|p| bytes_value(p)).unwrap_or(Value::Null),
            );
            "Response"
        }
        IpcEnvelope::Event(m) => {
            message.insert("protocol_version".into(), Value::from(m.protocol_version));
            message.insert("event_id".into(), Value::from(m.event_id.clone()));
            message.insert("session_id".into(), bytes_value(&m.session_id));
            message.insert("sequence".into(), Value::from(m.sequence));
            message.insert("event_type".into(), Value::from(m.event_type.clone()));
            message.insert("payload".into(), bytes_value(&m.payload));
            message.insert(
                "proof".into(),
                m.proof.as_ref().map(|p| bytes_value(p)).unwrap_or(Value::Null),
            );
            "Event"
        }
    };
    let mut outer = serde_json::Map::new();
    outer.insert("kind".into(), Value::from(kind));
    outer.insert("message".into(), Value::Object(message));
    Value::Object(outer)
}

fn text(m: &Value, key: &str) -> Option<String> {
    m.get(key)?.as_str().map(str::to_string)
}

fn version(m: &Value) -> Option<u16> {
    m.get("protocol_version")?.as_u64().and_then(|v| u16::try_from(v).ok())
}

fn optional_bytes(m: &Value, key: &str) -> Option<Option<Vec<u8>>> {
    match m.get(key)? {
        Value::Null => Some(None),
        other => value_bytes(other).map(Some),
    }
}

fn value_envelope(value: &Value) -> Option<IpcEnvelope> {
    let m = value.get("message")?;
    match value.get("kind")?.as_str()? {
        "Request" => Some(IpcEnvelope::Request(RequestEnvelope {
            protocol_version: version(m)?,
            correlation_id: text(m, "correlation_id")?,
            session_id: value_session(m.get("session_id")?)?,
            sequence: m.get("sequence")?.as_u64()?,
            method: text(m, "method")?,
            payload: value_bytes(m.get("payload")?)?,
            proof: value_bytes(m.get("proof")?)?,
        })),
        "Response" => Some(IpcEnvelope::Response(ResponseEnvelope {
            protocol_version: version(m)?,
            correlation_id: text(m, "correlation_id")?,
            session_id: value_session(m.get("session_id")?)?,
            sequence: m.get("sequence")?.as_u64()?,
            status: match m.get("status")?.as_str()? {
                "ok" => ResponseStatus::Success,
                "error" => ResponseStatus::Error,
                "rejected" => ResponseStatus::Rejected,
                _ => return None,
            },
            error_code: match m.get("error_code")? {
                Value::Null => None,
                other => Some(other.as_str()?.to_string()),
            },
            payload: value_bytes(m.get("payload")?)?,
            proof: optional_bytes(m, "proof")?,
        })),
        "Event" => Some(IpcEnvelope::Event(EventEnvelope {
            protocol_version: version(m)?,
            event_id: text(m, "event_id")?,
            session_id: value_session(m.get("session_id")?)?,
            sequence: m.get("sequence")?.as_u64()?,
            event_type: text(m, "event_type")?,
            payload: value_bytes(m.get("payload")?)?,
            proof: optional_bytes(m, "proof")?,
        })),
        _ => None,
    }
}

impl IpcCodec for JsonIpcCodec {
    fn encode(&self, envelope: &IpcEnvelope) -> Result<Vec<u8>, IpcError> {
        serde_json::to_vec(&envelope_value(envelope)).map_err(|_| IpcError::MalformedFrame("encode"))
    }

    fn decode(&self, body: &[u8]) -> Result<IpcEnvelope, IpcError> {
        let value: Value =
            serde_json::from_slice(body).map_err(|_| IpcError::MalformedFrame("decode"))?;
        value_envelope(&value).ok_or(IpcError::MalformedFrame("decode"))
    }
}

struct TestAuthenticator {
    expected_sequence: u64,
    result: Option<AuthError>,
}

impl AuthenticationProvider for TestAuthenticator {
    fn issue_challenge(
        &mut self,
        _protocol_version: u16,
        _correlation_id: &str,
        _now_ms: u64,
    ) -> Result<AuthChallenge, AuthError> {
        Err(AuthError::CryptoFailure)
    }

    fn complete_challenge(
        &mut self,
        _response: &ChallengeResponse,
        _now_ms: u64,
    ) -> Result<AuthenticatedSession, AuthError> {
        Err(AuthError::CryptoFailure)
    }

    fn verify_session_message(
        &mut self,
        _session: &AuthenticatedSession,
        _protocol_version: u16,
        _correlation_id: &str,
        sequence: u64,
        _message_digest: &[u8],
        _proof: &[u8],
        _now_ms: u64,
    ) -> Result<(), AuthError> {
        if let Some(error) = self.result.take() {
            return Err(error);
        }
        if sequence <= self.expected_sequence {
            return Err(AuthError::ReplayDetected);
        }
        self.expected_sequence = sequence;
        Ok(())
    }

    fn invalidate_session(&mut self, _session: &AuthenticatedSession, _now_ms: u64) -> bool {
        false
    }

    fn invalidate_all_sessions(&mut self, _now_ms: u64) {}
}

type Channel = AuthenticatedCoreChannel<MemoryTransport, JsonIpcCodec, TestAuthenticator>;
type Connection = IpcConnection<MemoryTransport, JsonIpcCodec>;

fn default_timeout() -> Duration {
    Duration::from_secs(IPC_DEFAULT_TIMEOUT_SECS)
}

fn request(sequence: u64) -> IpcEnvelope {
    IpcEnvelope::Request(RequestEnvelope {
        protocol_version: IPC_PROTOCOL_VERSION,
        correlation_id: format!("corr-{sequence}"),
        session_id: *test_session(10_000_000).session_id().as_bytes(),
        sequence,
        method: "core.test".to_string(),
        payload: b"payload".to_vec(),
        proof: vec![0xA5; AUTH_PROOF_LEN],
    })
}

fn request_message(sequence: u64) -> RequestEnvelope {
    match request(sequence) {
        IpcEnvelope::Request(message) => message,
        _ => unreachable!(),
    }
}

#[test]
fn frame_round_trip_is_strictly_length_delimited() {
    let codec = JsonIpcCodec;
    let original = request(1);
    let frame = encode_frame(&codec, &original).expect("frame");
    let decoded = decode_frame(&codec, &frame).expect("decode");
    assert_eq!(decoded, original);
}

#[test]
fn malformed_length_is_rejected() {
    let codec = JsonIpcCodec;
    assert_eq!(
        decode_frame(&codec, &[0, 0, 0, 10, 1, 2]),
        Err(IpcError::MalformedFrame("length_mismatch"))
    );
}

#[test]
fn unsupported_protocol_version_is_rejected() {
    let envelope = IpcEnvelope::Request(RequestEnvelope {
        protocol_version: 99,
        correlation_id: "corr".to_string(),
        session_id: [1; SESSION_ID_LEN],
        sequence: 1,
        method: "core.test".to_string(),
        payload: vec![],
        proof: vec![0; AUTH_PROOF_LEN],
    });
    assert_eq!(
        encode_frame(&JsonIpcCodec, &envelope),
        Err(IpcError::UnsupportedProtocolVersion {
            expected: IPC_PROTOCOL_VERSION,
            received: 99,
        })
    );
}

#[test]
fn empty_request_proof_is_rejected() {
    let envelope = IpcEnvelope::Request(RequestEnvelope {
        proof: vec![],
        ..request_message(1)
    });
    assert_eq!(
        encode_frame(&JsonIpcCodec, &envelope),
        Err(IpcError::InvalidEnvelope("proof"))
    );
}

#[test]
fn authenticated_request_is_accepted_once() {
    let (left, right) = MemoryTransport::pair();
    let mut client: Connection = IpcConnection::new(left);
    let mut host: Channel = AuthenticatedCoreChannel::new(
        right,
        TestAuthenticator {
            expected_sequence: 0,
            result: None,
        },
        test_session(10_000_000),
    );
    client.send(&request(1)).expect("send");
    let accepted = host.receive_request(default_timeout(), 1_000).expect("accept");
    assert_eq!(accepted.sequence, 1);

    client.send(&request(1)).expect("send replay");
    assert_eq!(
        host.receive_request(default_timeout(), 1_001),
        Err(IpcError::Authentication(AuthError::ReplayDetected))
    );
    assert!(!host.take_audit_events().is_empty());
}

#[test]
fn expired_session_rejection_closes_connection() {
    let (_left, right) = MemoryTransport::pair();
    let mut host: Channel = AuthenticatedCoreChannel::new(
        right,
        TestAuthenticator {
            expected_sequence: 0,
            result: Some(AuthError::SessionExpired),
        },
        test_session(10_000_000),
    );
    assert!(host.connection().is_open());

    let mut client: Connection = IpcConnection::new(MemoryTransport::pair().0);
    let _ = client.send(&request(1));
    let result = host.receive_request(Duration::from_millis(1), 1_000);
    assert!(matches!(result, Err(IpcError::Timeout) | Err(IpcError::Closed)));
}

#[test]
fn correlation_tracker_requires_exact_response_match() {
    let session = test_session(10_000_000);
    let request = RequestEnvelope {
        session_id: *session.session_id().as_bytes(),
        ..request_message(7)
    };
    let mut tracker = PendingRequests::new();
    tracker.register(&request).expect("register");

    let response = ResponseEnvelope {
        protocol_version: IPC_PROTOCOL_VERSION,
        correlation_id: request.correlation_id.clone(),
        session_id: request.session_id,
        sequence: request.sequence,
        status: ResponseStatus::Success,
        error_code: None,
        payload: b"ok".to_vec(),
        proof: None,
    };

    tracker.accept_response(&response).expect("match");
    assert_eq!(tracker.len(), 0);
}

#[test]
fn correlation_tracker_rejects_wrong_sequence() {
    let request = request_message(8);
    let mut tracker = PendingRequests::new();
    tracker.register(&request).expect("register");

    let response = ResponseEnvelope {
        protocol_version: IPC_PROTOCOL_VERSION,
        correlation_id: request.correlation_id.clone(),
        session_id: request.session_id,
        sequence: request.sequence + 1,
        status: ResponseStatus::Success,
        error_code: None,
        payload: vec![],
        proof: None,
    };

    assert_eq!(
        tracker.accept_response(&response),
        Err(IpcError::ResponseSequenceMismatch)
    );
    assert_eq!(tracker.len(), 0);
}

#[test]
fn response_from_another_session_leaves_the_request_waiting() {
    let request = request_message(9);
    let mut tracker = PendingRequests::new();
    tracker.register(&request).expect("register");

    let right = ResponseEnvelope {
        protocol_version: IPC_PROTOCOL_VERSION,
        correlation_id: request.correlation_id.clone(),
        session_id: request.session_id,
        sequence: request.sequence,
        status: ResponseStatus::Success,
        error_code: None,
        payload: vec![],
        proof: None,
    };
    let stray = ResponseEnvelope {
        session_id: [0xEE; SESSION_ID_LEN],
        ..right.clone()
    };

    assert_eq!(tracker.accept_response(&stray), Err(IpcError::SessionMismatch));
    assert_eq!(tracker.len(), 1);
    assert_eq!(tracker.accept_response(&right), Ok(()));
    assert_eq!(tracker.len(), 0);
    assert_eq!(tracker.accept_response(&right), Err(IpcError::UnknownCorrelation));
}

#[test]
fn memory_transport_timeout_is_explicit() {
    let (_left, mut right) = MemoryTransport::pair();
    assert_eq!(
        right.recv_frame(Duration::from_millis(1)),
        Err(IpcError::Timeout)
    );
}

#[test]
fn shutdown_is_idempotent() {
    let (left, _right) = MemoryTransport::pair();
    let mut connection: Connection = IpcConnection::new(left);
    connection.shutdown().expect("shutdown");
    connection.shutdown().expect("second shutdown");
    assert!(!connection.is_open());
}

#[test]
fn canonical_material_changes_with_message_kind() {
    let request = request(1);
    let response = match request.clone() {
        IpcEnvelope::Request(message) => IpcEnvelope::Response(ResponseEnvelope {
            protocol_version: IPC_PROTOCOL_VERSION,
            correlation_id: message.correlation_id,
            session_id: message.session_id,
            sequence: message.sequence,
            status: ResponseStatus::Success,
            error_code: None,
            payload: message.payload,
            proof: None,
        }),
        _ => unreachable!(),
    };
    assert_ne!(
        canonical_message_material(&request).expect("request material"),
        canonical_message_material(&response).expect("response material")
    );
}

#[test]
fn frame_header_is_big_endian_length() {
    let frame = frame_body(vec![7, 8, 9]).expect("frame");
    assert_eq!(frame, vec![0, 0, 0, 3, 7, 8, 9]);
    assert_eq!(unframe_body(&frame), Ok(vec![7, 8, 9]));
    assert_eq!(frame_body(vec![]), Err(IpcError::OversizedFrame));
}

#[test]
fn frame_reader_refusals() {
    assert_eq!(
        unframe_body(&[0, 0, 1]),
        Err(IpcError::MalformedFrame("length_prefix"))
    );
    assert_eq!(unframe_body(&[0, 0, 0, 0]), Err(IpcError::OversizedFrame));
    assert_eq!(
        unframe_body(&[0, 0x10, 0, 1, 0]),
        Err(IpcError::OversizedFrame)
    );
    let big = 1_048_577_u32.to_be_bytes();
    assert_eq!(unframe_body(&big), Err(IpcError::OversizedFrame));
}

#[test]
fn canonical_material_layout_of_a_request() {
    let envelope = IpcEnvelope::Request(RequestEnvelope {
        protocol_version: 1,
        correlation_id: "c".to_string(),
        session_id: [2; SESSION_ID_LEN],
        sequence: 3,
        method: "m".to_string(),
        payload: vec![9],
        proof: vec![0; AUTH_PROOF_LEN],
    });
    let mut expected = b"NAVEEN-IPC-MESSAGE-V1".to_vec();
    expected.push(1);
    expected.extend_from_slice(&[0, 1]);
    expected.extend_from_slice(&[0, 0, 0, 16]);
    expected.extend_from_slice(&[2; 16]);
    expected.extend_from_slice(&[0, 0, 0, 1, b'c']);
    expected.extend_from_slice(&3_u64.to_be_bytes());
    expected.extend_from_slice(&[0, 0, 0, 1, b'm']);
    expected.extend_from_slice(&[0, 0, 0, 1, 9]);
    assert_eq!(canonical_message_material(&envelope), Ok(expected));
}

#[test]
fn response_status_and_error_code_must_agree() {
    let base = ResponseEnvelope {
        protocol_version: IPC_PROTOCOL_VERSION,
        correlation_id: "corr".to_string(),
        session_id: [1; SESSION_ID_LEN],
        sequence: 1,
        status: ResponseStatus::Success,
        error_code: Some("boom".to_string()),
        payload: vec![],
        proof: None,
    };
    assert_eq!(
        canonical_message_material(&IpcEnvelope::Response(base.clone())),
        Err(IpcError::InvalidEnvelope("error_code"))
    );
    let failed = ResponseEnvelope {
        status: ResponseStatus::Error,
        ..base
    };
    assert!(canonical_message_material(&IpcEnvelope::Response(failed)).is_ok());
}

#[test]
fn envelope_accessors_report_kind_and_ids() {
    let envelope = request(4);
    assert_eq!(envelope.kind(), IpcMessageKind::Request);
    assert_eq!(envelope.protocol_version(), IPC_PROTOCOL_VERSION);
    assert_eq!(envelope.correlation_id(), Some("corr-4"));
    let event = IpcEnvelope::Event(EventEnvelope {
        protocol_version: 1,
        event_id: "e".to_string(),
        session_id: [3; SESSION_ID_LEN],
        sequence: 1,
        event_type: "t".to_string(),
        payload: vec![],
        proof: None,
    });
    assert_eq!(event.kind(), IpcMessageKind::Event);
    assert_eq!(event.correlation_id(), None);
    assert_eq!(event.session_id(), [3; SESSION_ID_LEN]);
}

#[test]
fn duplicate_and_unknown_correlations_are_refused() {
    let request = request_message(9);
    let mut tracker = PendingRequests::new();
    tracker.register(&request).expect("register");
    assert_eq!(tracker.register(&request), Err(IpcError::DuplicateCorrelation));
    let response = ResponseEnvelope {
        protocol_version: IPC_PROTOCOL_VERSION,
        correlation_id: "other".to_string(),
        session_id: request.session_id,
        sequence: request.sequence,
        status: ResponseStatus::Success,
        error_code: None,
        payload: vec![],
        proof: None,
    };
    assert_eq!(tracker.accept_response(&response), Err(IpcError::UnknownCorrelation));
    assert_eq!(tracker.len(), 1);
}

#[test]
fn a_settled_request_is_not_answered_twice() {
    let request = request_message(10);
    let mut tracker = PendingRequests::default();
    tracker.register(&request).expect("register");
    let response = ResponseEnvelope {
        protocol_version: IPC_PROTOCOL_VERSION,
        correlation_id: request.correlation_id.clone(),
        session_id: request.session_id,
        sequence: request.sequence,
        status: ResponseStatus::Success,
        error_code: None,
        payload: vec![],
        proof: None,
    };
    assert_eq!(tracker.accept_response(&response), Ok(()));
    assert_eq!(tracker.accept_response(&response), Err(IpcError::UnknownCorrelation));
}

#[test]
fn memory_transport_delivers_frames_in_order() {
    let (mut left, mut right) = MemoryTransport::pair();
    left.send_frame(&[1, 2]).expect("send");
    left.send_frame(&[3]).expect("send");
    assert_eq!(right.recv_frame(Duration::from_millis(50)), Ok(vec![1, 2]));
    assert_eq!(right.recv_frame(Duration::from_millis(50)), Ok(vec![3]));
    right.shutdown().expect("shutdown");
    assert_eq!(right.recv_frame(Duration::from_millis(1)), Err(IpcError::Closed));
    assert_eq!(right.send_frame(&[1]), Err(IpcError::Closed));
}

#[test]
fn malformed_frame_closes_the_connection_and_is_audited() {
    let (mut left, right) = MemoryTransport::pair();
    let mut connection: Connection = IpcConnection::new(right);
    left.send_frame(&[0, 0, 0, 5, 1]).expect("send");
    assert_eq!(
        connection.receive(Duration::from_millis(50)),
        Err(IpcError::MalformedFrame("length_mismatch"))
    );
    assert!(!connection.is_open());
    let events = connection.take_audit_events();
    assert_eq!(events.len(), 2);
    assert_eq!(events[0].event_type, IpcAuditEventType::FrameRejected);
    assert_eq!(events[0].reason, Some(IpcAuditReason::MalformedFrame));
    assert_eq!(events[1].event_type, IpcAuditEventType::ConnectionClosed);
    assert_eq!(connection.receive(Duration::from_millis(1)), Err(IpcError::Closed));
}

#[test]
fn foreign_session_request_is_refused_and_closes() {
    let (left, right) = MemoryTransport::pair();
    let mut client: Connection = IpcConnection::new(left);
    let mut host: Channel = AuthenticatedCoreChannel::new(
        right,
        TestAuthenticator {
            expected_sequence: 0,
            result: None,
        },
        test_session(10_000_000),
    );
    let foreign = IpcEnvelope::Request(RequestEnvelope {
        session_id: [1; SESSION_ID_LEN],
        ..request_message(1)
    });
    client.send(&foreign).expect("send");
    assert_eq!(
        host.receive_request(default_timeout(), 5),
        Err(IpcError::SessionMismatch)
    );
    assert!(!host.connection().is_open());
}

#[test]
fn channel_answers_requests_of_its_session() {
    let (left, right) = MemoryTransport::pair();
    let mut client: Connection = IpcConnection::new(left);
    let mut host: Channel = AuthenticatedCoreChannel::new(
        right,
        TestAuthenticator {
            expected_sequence: 0,
            result: None,
        },
        test_session(10_000_000),
    );
    client.send(&request(2)).expect("send");
    let accepted = host.receive_request(default_timeout(), 1).expect("accept");
    host.send_response(&accepted, ResponseStatus::Success, None, b"done".to_vec())
        .expect("respond");
    match client.receive(default_timeout()).expect("response") {
        IpcEnvelope::Response(response) => {
            assert_eq!(response.correlation_id, "corr-2");
            assert_eq!(response.sequence, 2);
            assert_eq!(response.payload, b"done".to_vec());
        }
        other => panic!("unexpected {other:?}"),
    }
    assert_eq!(
        host.send_event(0, "e".to_string(), "t".to_string(), vec![]),
        Err(IpcError::InvalidEnvelope("sequence"))
    );
    let foreign = RequestEnvelope {
        session_id: [9; SESSION_ID_LEN],
        ..accepted
    };
    assert_eq!(
        host.send_response(&foreign, ResponseStatus::Success, None, vec![]),
        Err(IpcError::SessionMismatch)
    );
}

#[test]
fn non_request_envelopes_are_unexpected_on_the_core_channel() {
    let (left, right) = MemoryTransport::pair();
    let mut client: Connection = IpcConnection::new(left);
    let mut host: Channel = AuthenticatedCoreChannel::new(
        right,
        TestAuthenticator {
            expected_sequence: 0,
            result: None,
        },
        test_session(10_000_000),
    );
    let event = IpcEnvelope::Event(EventEnvelope {
        protocol_version: IPC_PROTOCOL_VERSION,
        event_id: "ev-1".to_string(),
        session_id: *test_session(10_000_000).session_id().as_bytes(),
        sequence: 1,
        event_type: "core.status".to_string(),
        payload: vec![],
        proof: None,
    });
    client.send(&event).expect("send");
    assert_eq!(
        host.receive_request(default_timeout(), 1),
        Err(IpcError::UnexpectedMessageKind)
    );
    assert!(!host.connection().is_open());
    assert_eq!(host.shutdown(), Ok(()));
}

#[test]
fn authenticator_verdict_decides_acceptance() {
    let (_left, right) = MemoryTransport::pair();
    let mut host: Channel = AuthenticatedCoreChannel::new(
        right,
        TestAuthenticator {
            expected_sequence: 0,
            result: None,
        },
        test_session(10_000_000),
    );
    let accepted = host
        .conclude_request(request_message(3), Ok(()), 7)
        .expect("accepted");
    assert_eq!(accepted.sequence, 3);
    assert!(host.connection().is_open());
    assert_eq!(
        host.conclude_request(request_message(4), Err(AuthError::InvalidProof), 8),
        Err(IpcError::Authentication(AuthError::InvalidProof))
    );
    assert!(!host.connection().is_open());
    let events = host.take_audit_events();
    assert_eq!(events.len(), 3);
    assert_eq!(events[0].event_type, IpcAuditEventType::RequestAccepted);
    assert_eq!(events[0].timestamp_ms, 7);
    assert_eq!(events[1].reason, Some(IpcAuditReason::AuthenticationRejected));
    assert_eq!(events[2].event_type, IpcAuditEventType::ConnectionClosed);
}

#[test]
fn transport_timeouts_keep_the_connection_open() {
    let (_left, right) = MemoryTransport::pair();
    let mut connection: Connection = IpcConnection::new(right);
    assert_eq!(
        connection.process_received(Err(IpcError::Timeout)),
        Err(IpcError::Timeout)
    );
    assert!(connection.is_open());
    assert_eq!(
        connection.process_received(Err(IpcError::Transport("pipe".to_string()))),
        Err(IpcError::Transport("pipe".to_string()))
    );
    assert!(connection.is_open());
    assert_eq!(connection.take_audit_events().len(), 2);
    assert_eq!(
        connection.process_received(Err(IpcError::Closed)),
        Err(IpcError::Closed)
    );
    assert!(!connection.is_open());
}

#[test]
fn material_tells_apart_fields_that_shift_between_neighbours() {
    let first = RequestEnvelope {
        correlation_id: "ab".to_string(),
        method: "c".to_string(),
        ..request_message(3)
    };
    let second = RequestEnvelope {
        correlation_id: "a".to_string(),
        method: "bc".to_string(),
        ..request_message(3)
    };
    let third = RequestEnvelope {
        payload: vec![1, 2],
        ..request_message(3)
    };
    let a = canonical_message_material(&IpcEnvelope::Request(first)).expect("material");
    let b = canonical_message_material(&IpcEnvelope::Request(second)).expect("material");
    let c = canonical_message_material(&IpcEnvelope::Request(third.clone())).expect("material");
    let d = canonical_message_material(&IpcEnvelope::Request(RequestEnvelope {
        proof: vec![9; 32],
        ..third
    }))
    .expect("material");
    assert_ne!(a, b);
    assert_ne!(a, c);
    assert_eq!(c, d);
}

#[test]
fn registering_counts_each_new_correlation_once() {
    let mut tracker = PendingRequests::new();
    assert_eq!(tracker.register(&request_message(11)), Ok(()));
    assert_eq!(tracker.len(), 1);
    assert_eq!(tracker.register(&request_message(11)), Err(IpcError::DuplicateCorrelation));
    assert_eq!(tracker.len(), 1);
    assert_eq!(tracker.register(&request_message(12)), Ok(()));
    assert_eq!(tracker.len(), 2);
}
