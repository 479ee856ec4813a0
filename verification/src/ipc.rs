//! Versioned, length-delimited, authenticated messaging between the host and
//! the Core process.

use std::collections::VecDeque;
use std::time::Duration;

use vstd::prelude::*;

use crate::auth::{
    valid_text, is_valid_text, AuthError, AuthenticatedSession, AuthenticationProvider,
    AUTH_PROOF_LEN,
};
use crate::encoding::{
    be_u16, be_u32, be_u64, length_prefixed, push_bytes, push_raw, push_string, push_u16,
    push_u64, text_field,
};
use crate::keyed::{
    keyed_map, keys_unique, lemma_keyed_at, lemma_keyed_dom, lemma_keyed_len, lemma_keyed_push,
    lemma_keyed_remove,
};
use crate::text::{bytes_eq, str_eq};

verus! {

pub const IPC_PROTOCOL_VERSION: u16 = 1;
pub const IPC_MAX_WIRE_BODY_SIZE: usize = 1_048_576;
pub const IPC_MAX_PAYLOAD_SIZE: usize = 524_288;
pub const IPC_MAX_CORRELATION_ID_LEN: usize = 128;
pub const IPC_MAX_METHOD_LEN: usize = 128;
pub const IPC_MAX_EVENT_ID_LEN: usize = 128;
pub const IPC_MAX_EVENT_TYPE_LEN: usize = 128;
pub const IPC_MAX_ERROR_CODE_LEN: usize = 128;
pub const IPC_MAX_AUDIT_EVENTS: usize = 256;
/// Default receive timeout, in seconds.
pub const IPC_DEFAULT_TIMEOUT_SECS: u64 = 5;

const FRAME_HEADER_LEN: usize = 4;

/// Domain separator of canonical message material: `NAVEEN-IPC-MESSAGE-V1`.
pub open spec fn ipc_domain() -> Seq<u8> {
    seq![78u8, 65, 86, 69, 69, 78, 45, 73, 80, 67, 45, 77, 69, 83, 83, 65, 71, 69, 45, 86, 49]
}

#[derive(Debug, Clone, Copy, PartialEq, Eq, Structural)]
pub enum IpcMessageKind {
    Request,
    Response,
    Event,
}

#[derive(Debug, Clone, PartialEq, Eq)]
pub struct RequestEnvelope {
    pub protocol_version: u16,
    pub correlation_id: String,
    pub session_id: [u8; 16],
    pub sequence: u64,
    pub method: String,
    pub payload: Vec<u8>,
    pub proof: Vec<u8>,
}

#[derive(Debug, Clone, Copy, PartialEq, Eq, Structural)]
pub enum ResponseStatus {
    Success,
    Error,
    Rejected,
}

#[derive(Debug, Clone, PartialEq, Eq)]
pub struct ResponseEnvelope {
    pub protocol_version: u16,
    pub correlation_id: String,
    pub session_id: [u8; 16],
    pub sequence: u64,
    pub status: ResponseStatus,
    pub error_code: Option<String>,
    pub payload: Vec<u8>,
    /// Host-to-Core responses travel over the private child channel and are
    /// bound to the request's correlation and session; signing them is left
    /// to the authentication layer.
    pub proof: Option<Vec<u8>>,
}

#[derive(Debug, Clone, PartialEq, Eq)]
pub struct EventEnvelope {
    pub protocol_version: u16,
    pub event_id: String,
    pub session_id: [u8; 16],
    pub sequence: u64,
    pub event_type: String,
    pub payload: Vec<u8>,
    pub proof: Option<Vec<u8>>,
}

#[derive(Debug, Clone, PartialEq, Eq)]
pub enum IpcEnvelope {
    Request(RequestEnvelope),
    Response(ResponseEnvelope),
    Event(EventEnvelope),
}

pub open spec fn kind_spec(e: IpcEnvelope) -> IpcMessageKind {
    match e {
        IpcEnvelope::Request(_) => IpcMessageKind::Request,
        IpcEnvelope::Response(_) => IpcMessageKind::Response,
        IpcEnvelope::Event(_) => IpcMessageKind::Event,
    }
}

pub open spec fn protocol_version_spec(e: IpcEnvelope) -> u16 {
    match e {
        IpcEnvelope::Request(m) => m.protocol_version,
        IpcEnvelope::Response(m) => m.protocol_version,
        IpcEnvelope::Event(m) => m.protocol_version,
    }
}

pub open spec fn session_id_spec(e: IpcEnvelope) -> [u8; 16] {
    match e {
        IpcEnvelope::Request(m) => m.session_id,
        IpcEnvelope::Response(m) => m.session_id,
        IpcEnvelope::Event(m) => m.session_id,
    }
}

impl IpcEnvelope {
    pub fn kind(&self) -> (r: IpcMessageKind)
        ensures
            r == kind_spec(*self),
    {
        match self {
            IpcEnvelope::Request(_) => IpcMessageKind::Request,
            IpcEnvelope::Response(_) => IpcMessageKind::Response,
            IpcEnvelope::Event(_) => IpcMessageKind::Event,
        }
    }

    pub fn protocol_version(&self) -> (r: u16)
        ensures
            r == protocol_version_spec(*self),
    {
        match self {
            IpcEnvelope::Request(m) => m.protocol_version,
            IpcEnvelope::Response(m) => m.protocol_version,
            IpcEnvelope::Event(m) => m.protocol_version,
        }
    }

    pub fn session_id(&self) -> (r: [u8; 16])
        ensures
            r == session_id_spec(*self),
    {
        match self {
            IpcEnvelope::Request(m) => m.session_id,
            IpcEnvelope::Response(m) => m.session_id,
            IpcEnvelope::Event(m) => m.session_id,
        }
    }

    /// The correlation id of a request or response; events have none.
    pub fn correlation_id(&self) -> (r: Option<&str>)
        ensures
            match *self {
                IpcEnvelope::Request(m) => r matches Some(c) && c@ == m.correlation_id@,
                IpcEnvelope::Response(m) => r matches Some(c) && c@ == m.correlation_id@,
                IpcEnvelope::Event(_) => r is None,
            },
    {
        match self {
            IpcEnvelope::Request(m) => Some(m.correlation_id.as_str()),
            IpcEnvelope::Response(m) => Some(m.correlation_id.as_str()),
            IpcEnvelope::Event(_) => None,
        }
    }
}

#[derive(Debug, Clone, PartialEq, Eq)]
pub enum IpcError {
    UnsupportedProtocolVersion { expected: u16, received: u16 },
    MalformedFrame(&'static str),
    OversizedFrame,
    Timeout,
    Closed,
    Transport(String),
    Authentication(AuthError),
    SessionMismatch,
    UnexpectedMessageKind,
    CorrelationMissing,
    DuplicateCorrelation,
    UnknownCorrelation,
    ResponseSequenceMismatch,
    InvalidEnvelope(&'static str),
}

impl From<AuthError> for IpcError {
    fn from(error: AuthError) -> (r: Self) {
        IpcError::Authentication(error)
    }
}

impl vstd::std_specs::convert::FromSpecImpl<AuthError> for IpcError {
    open spec fn obeys_from_spec() -> bool {
        true
    }

    open spec fn from_spec(error: AuthError) -> Self {
        IpcError::Authentication(error)
    }
}

#[derive(Debug, Clone, Copy, PartialEq, Eq, Structural)]
pub enum IpcAuditEventType {
    FrameRejected,
    RequestAccepted,
    ConnectionClosed,
}

#[derive(Debug, Clone, Copy, PartialEq, Eq, Structural)]
pub enum IpcAuditReason {
    UnsupportedProtocolVersion,
    MalformedFrame,
    OversizedFrame,
    Timeout,
    Closed,
    TransportFailure,
    AuthenticationRejected,
    SessionMismatch,
    UnexpectedMessageKind,
    CorrelationFailure,
    InvalidEnvelope,
}

/// An IPC audit record: coarse metadata only, never payloads or proofs.
#[derive(Debug, Clone, PartialEq, Eq)]
pub struct IpcAuditEvent {
    pub event_type: IpcAuditEventType,
    pub timestamp_ms: u64,
    pub protocol_version: u16,
    pub correlation_id: Option<String>,
    pub session_id: Option<[u8; 16]>,
    pub reason: Option<IpcAuditReason>,
}

pub struct IpcAuditView {
    pub event_type: IpcAuditEventType,
    pub timestamp_ms: u64,
    pub protocol_version: u16,
    pub correlation_id: Option<Seq<char>>,
    pub session_id: Option<Seq<u8>>,
    pub reason: Option<IpcAuditReason>,
}

impl View for IpcAuditEvent {
    type V = IpcAuditView;

    open spec fn view(&self) -> IpcAuditView {
        IpcAuditView {
            event_type: self.event_type,
            timestamp_ms: self.timestamp_ms,
            protocol_version: self.protocol_version,
            correlation_id: match self.correlation_id {
                Some(c) => Some(c@),
                None => None,
            },
            session_id: match self.session_id {
                Some(s) => Some(s@),
                None => None,
            },
            reason: self.reason,
        }
    }
}

/// Appends an event to a log that keeps the latest `IPC_MAX_AUDIT_EVENTS`.
pub open spec fn ipc_push_bounded(log: Seq<IpcAuditView>, e: IpcAuditView) -> Seq<IpcAuditView> {
    if log.len() >= IPC_MAX_AUDIT_EVENTS {
        log.drop_first().push(e)
    } else {
        log.push(e)
    }
}

/// The IPC audit log never holds more than `IPC_MAX_AUDIT_EVENTS` records,
/// and the newest record is always kept.
pub proof fn lemma_ipc_audit_bounded(log: Seq<IpcAuditView>, e: IpcAuditView)
    requires
        log.len() <= IPC_MAX_AUDIT_EVENTS,
    ensures
        ipc_push_bounded(log, e).len() <= IPC_MAX_AUDIT_EVENTS,
        ipc_push_bounded(log, e).last() == e,
{
}

pub open spec fn protocol_error(version: u16) -> Option<IpcError> {
    if version != IPC_PROTOCOL_VERSION {
        Some(IpcError::UnsupportedProtocolVersion { expected: IPC_PROTOCOL_VERSION, received: version })
    } else {
        None
    }
}

pub open spec fn optional_proof_ok(p: Option<Vec<u8>>) -> bool {
    match p {
        Some(p) => p@.len() == AUTH_PROOF_LEN,
        None => true,
    }
}

/// The first field of a request that the protocol refuses, if any.
pub open spec fn request_check(m: RequestEnvelope) -> Option<IpcError> {
    if m.protocol_version != IPC_PROTOCOL_VERSION {
        protocol_error(m.protocol_version)
    } else if !valid_text(m.correlation_id@, IPC_MAX_CORRELATION_ID_LEN as nat) {
        Some(IpcError::InvalidEnvelope("text"))
    } else if !valid_text(m.method@, IPC_MAX_METHOD_LEN as nat) {
        Some(IpcError::InvalidEnvelope("text"))
    } else if m.payload@.len() > IPC_MAX_PAYLOAD_SIZE {
        Some(IpcError::OversizedFrame)
    } else if m.sequence == 0 {
        Some(IpcError::InvalidEnvelope("sequence"))
    } else if m.proof@.len() != AUTH_PROOF_LEN {
        Some(IpcError::InvalidEnvelope("proof"))
    } else {
        None
    }
}

/// The first field of a response that the protocol refuses, if any. An `Ok`
/// response carries no error code; `Error` and `Rejected` carry one.
pub open spec fn response_check(m: ResponseEnvelope) -> Option<IpcError> {
    if m.protocol_version != IPC_PROTOCOL_VERSION {
        protocol_error(m.protocol_version)
    } else if !valid_text(m.correlation_id@, IPC_MAX_CORRELATION_ID_LEN as nat) {
        Some(IpcError::InvalidEnvelope("text"))
    } else if m.payload@.len() > IPC_MAX_PAYLOAD_SIZE {
        Some(IpcError::OversizedFrame)
    } else if m.sequence == 0 {
        Some(IpcError::InvalidEnvelope("sequence"))
    } else if m.error_code matches Some(c) && !valid_text(c@, IPC_MAX_ERROR_CODE_LEN as nat) {
        Some(IpcError::InvalidEnvelope("text"))
    } else if !optional_proof_ok(m.proof) {
        Some(IpcError::InvalidEnvelope("proof"))
    } else if (m.status == ResponseStatus::Success) != (m.error_code is None) {
        Some(IpcError::InvalidEnvelope("error_code"))
    } else {
        None
    }
}

/// The first field of an event that the protocol refuses, if any.
pub open spec fn event_check(m: EventEnvelope) -> Option<IpcError> {
    if m.protocol_version != IPC_PROTOCOL_VERSION {
        protocol_error(m.protocol_version)
    } else if !valid_text(m.event_id@, IPC_MAX_EVENT_ID_LEN as nat) {
        Some(IpcError::InvalidEnvelope("text"))
    } else if !valid_text(m.event_type@, IPC_MAX_EVENT_TYPE_LEN as nat) {
        Some(IpcError::InvalidEnvelope("text"))
    } else if m.payload@.len() > IPC_MAX_PAYLOAD_SIZE {
        Some(IpcError::OversizedFrame)
    } else if m.sequence == 0 {
        Some(IpcError::InvalidEnvelope("sequence"))
    } else if !optional_proof_ok(m.proof) {
        Some(IpcError::InvalidEnvelope("proof"))
    } else {
        None
    }
}

pub open spec fn envelope_check(e: IpcEnvelope) -> Option<IpcError> {
    match e {
        IpcEnvelope::Request(m) => request_check(m),
        IpcEnvelope::Response(m) => response_check(m),
        IpcEnvelope::Event(m) => event_check(m),
    }
}

fn validate_protocol(version: u16) -> (r: Result<(), IpcError>)
    ensures
        r is Ok <==> protocol_error(version) is None,
        r matches Err(e) ==> protocol_error(version) == Some(e),
{
    if version != IPC_PROTOCOL_VERSION {
        return Err(
            IpcError::UnsupportedProtocolVersion {
                expected: IPC_PROTOCOL_VERSION,
                received: version,
            },
        );
    }
    Ok(())
}

fn validate_optional_proof(signature: &Option<Vec<u8>>) -> (r: bool)
    ensures
        r == optional_proof_ok(*signature),
{
    match signature {
        Some(p) => p.len() == AUTH_PROOF_LEN,
        None => true,
    }
}

pub fn validate_request(m: &RequestEnvelope) -> (r: Result<(), IpcError>)
    ensures
        r is Ok <==> request_check(*m) is None,
        r matches Err(e) ==> request_check(*m) == Some(e),
{
    validate_protocol(m.protocol_version)?;
    if !is_valid_text(m.correlation_id.as_str(), IPC_MAX_CORRELATION_ID_LEN) {
        return Err(IpcError::InvalidEnvelope("text"));
    }
    if !is_valid_text(m.method.as_str(), IPC_MAX_METHOD_LEN) {
        return Err(IpcError::InvalidEnvelope("text"));
    }
    if m.payload.len() > IPC_MAX_PAYLOAD_SIZE {
        return Err(IpcError::OversizedFrame);
    }
    if m.sequence == 0 {
        return Err(IpcError::InvalidEnvelope("sequence"));
    }
    if m.proof.len() != AUTH_PROOF_LEN {
        return Err(IpcError::InvalidEnvelope("proof"));
    }
    Ok(())
}

pub fn validate_response(m: &ResponseEnvelope) -> (r: Result<(), IpcError>)
    ensures
        r is Ok <==> response_check(*m) is None,
        r matches Err(e) ==> response_check(*m) == Some(e),
{
    validate_protocol(m.protocol_version)?;
    if !is_valid_text(m.correlation_id.as_str(), IPC_MAX_CORRELATION_ID_LEN) {
        return Err(IpcError::InvalidEnvelope("text"));
    }
    if m.payload.len() > IPC_MAX_PAYLOAD_SIZE {
        return Err(IpcError::OversizedFrame);
    }
    if m.sequence == 0 {
        return Err(IpcError::InvalidEnvelope("sequence"));
    }
    if let Some(code) = &m.error_code {
        if !is_valid_text(code.as_str(), IPC_MAX_ERROR_CODE_LEN) {
            return Err(IpcError::InvalidEnvelope("text"));
        }
    }
    if !validate_optional_proof(&m.proof) {
        return Err(IpcError::InvalidEnvelope("proof"));
    }
    let is_ok = match m.status {
        ResponseStatus::Success => true,
        _ => false,
    };
    if is_ok != m.error_code.is_none() {
        return Err(IpcError::InvalidEnvelope("error_code"));
    }
    Ok(())
}

pub fn validate_event(m: &EventEnvelope) -> (r: Result<(), IpcError>)
    ensures
        r is Ok <==> event_check(*m) is None,
        r matches Err(e) ==> event_check(*m) == Some(e),
{
    validate_protocol(m.protocol_version)?;
    if !is_valid_text(m.event_id.as_str(), IPC_MAX_EVENT_ID_LEN) {
        return Err(IpcError::InvalidEnvelope("text"));
    }
    if !is_valid_text(m.event_type.as_str(), IPC_MAX_EVENT_TYPE_LEN) {
        return Err(IpcError::InvalidEnvelope("text"));
    }
    if m.payload.len() > IPC_MAX_PAYLOAD_SIZE {
        return Err(IpcError::OversizedFrame);
    }
    if m.sequence == 0 {
        return Err(IpcError::InvalidEnvelope("sequence"));
    }
    if !validate_optional_proof(&m.proof) {
        return Err(IpcError::InvalidEnvelope("proof"));
    }
    Ok(())
}

pub fn validate_envelope(envelope: &IpcEnvelope) -> (r: Result<(), IpcError>)
    ensures
        r is Ok <==> envelope_check(*envelope) is None,
        r matches Err(e) ==> envelope_check(*envelope) == Some(e),
{
    match envelope {
        IpcEnvelope::Request(m) => validate_request(m),
        IpcEnvelope::Response(m) => validate_response(m),
        IpcEnvelope::Event(m) => validate_event(m),
    }
}


/// Turns envelopes into frame bodies and back. Implementations are chosen by
/// the embedding application (the host speaks JSON to the Core).
///
/// `spec_encode` and `spec_decode` describe a codec only where
/// `models_encoding` and `models_decoding` hold; codecs written outside
/// verified code keep the defaults, so that nothing is claimed of them.
pub trait IpcCodec {
    /// Whether `spec_encode` describes this codec's encoding.
    open spec fn models_encoding(&self) -> bool {
        false
    }

    /// The body this codec encodes an envelope to, or its refusal, where
    /// `models_encoding` holds.
    open spec fn spec_encode(&self, envelope: IpcEnvelope) -> Result<Seq<u8>, IpcError> {
        Err(IpcError::MalformedFrame("encode"))
    }

    fn encode(&self, envelope: &IpcEnvelope) -> (r: Result<Vec<u8>, IpcError>)
        ensures
            self.models_encoding() ==> body_view(r) == self.spec_encode(*envelope),
    ;

    /// Whether `spec_decode` describes this codec's decoding.
    open spec fn models_decoding(&self) -> bool {
        false
    }

    /// The envelope this codec reads from a body, or its refusal, where
    /// `models_decoding` holds.
    open spec fn spec_decode(&self, body: Seq<u8>) -> Result<IpcEnvelope, IpcError> {
        Err(IpcError::MalformedFrame("decode"))
    }

    fn decode(&self, body: &[u8]) -> (r: Result<IpcEnvelope, IpcError>)
        ensures
            self.models_decoding() ==> r == self.spec_decode(body@),
    ;
}

/// An encoded body or framed frame, by value.
pub open spec fn body_view(r: Result<Vec<u8>, IpcError>) -> Result<Seq<u8>, IpcError> {
    match r {
        Ok(b) => Ok(b@),
        Err(e) => Err(e),
    }
}

/// How a send changed the frames a transport recorded: on failure not at
/// all; on success by exactly one frame, the framed body of an envelope that
/// `sent` describes, which is the codec's encoding of that envelope where the
/// codec models one.
pub open spec fn records_send<C: IpcCodec>(
    before: Seq<Seq<u8>>,
    after: Seq<Seq<u8>>,
    codec: C,
    sent: spec_fn(IpcEnvelope) -> bool,
    ok: bool,
) -> bool {
    if ok {
        exists|envelope: IpcEnvelope, body: Seq<u8>|
            #![trigger sent(envelope), frame_of(body)]
            {
                &&& sent(envelope)
                &&& after == before.push(frame_of(body))
                &&& frame_result(body) == Ok::<Seq<u8>, IpcError>(frame_of(body))
                &&& codec.models_encoding() ==> codec.spec_encode(envelope) == Ok::<
                    Seq<u8>,
                    IpcError,
                >(body)
            }
    } else {
        after == before
    }
}

/// A send recorded as one of the envelopes `narrow` describes is recorded
/// as one of those `wide` describes, where every envelope of the first kind
/// is of the second.
pub proof fn lemma_records_send_widen<C: IpcCodec>(
    before: Seq<Seq<u8>>,
    after: Seq<Seq<u8>>,
    codec: C,
    narrow: spec_fn(IpcEnvelope) -> bool,
    wide: spec_fn(IpcEnvelope) -> bool,
    ok: bool,
)
    requires
        records_send(before, after, codec, narrow, ok),
        forall|e: IpcEnvelope| #[trigger] narrow(e) ==> wide(e),
    ensures
        records_send(before, after, codec, wide, ok),
{
    if ok {
        let (envelope, body) = choose|envelope: IpcEnvelope, body: Seq<u8>|
            #![trigger narrow(envelope), frame_of(body)]
            {
                &&& narrow(envelope)
                &&& after == before.push(frame_of(body))
                &&& frame_result(body) == Ok::<Seq<u8>, IpcError>(frame_of(body))
                &&& codec.models_encoding() ==> codec.spec_encode(envelope) == Ok::<
                    Seq<u8>,
                    IpcError,
                >(body)
            };
        assert(wide(envelope));
    }
}

/// What framing gives for what a codec returned: the codec's refusal passed
/// on, or the body framed.
pub open spec fn encoded_frame(encoded: Result<Seq<u8>, IpcError>) -> Result<Seq<u8>, IpcError> {
    match encoded {
        Err(e) => Err(e),
        Ok(body) => frame_result(body),
    }
}

/// The number that the big-endian header `b[0..4]` spells.
pub open spec fn be_u32_value(b: Seq<u8>) -> u32 {
    ((b[0] as u32) << 24u32) | ((b[1] as u32) << 16u32) | ((b[2] as u32) << 8u32) | (b[3] as u32)
}

/// A frame: the body's length as a 4-byte big-endian header, then the body.
pub open spec fn frame_of(body: Seq<u8>) -> Seq<u8> {
    be_u32(body.len() as u32) + body
}

/// What framing a body gives: it must be non-empty and within the wire limit.
pub open spec fn frame_result(body: Seq<u8>) -> Result<Seq<u8>, IpcError> {
    if body.len() == 0 || body.len() > IPC_MAX_WIRE_BODY_SIZE {
        Err(IpcError::OversizedFrame)
    } else {
        Ok(frame_of(body))
    }
}

/// What reading a frame gives: the body its header announces, or the reason
/// the frame is refused.
pub open spec fn unframe_result(frame: Seq<u8>) -> Result<Seq<u8>, IpcError> {
    if frame.len() < 4 {
        Err(IpcError::MalformedFrame("length_prefix"))
    } else if be_u32_value(frame) == 0 || be_u32_value(frame) > IPC_MAX_WIRE_BODY_SIZE {
        Err(IpcError::OversizedFrame)
    } else if frame.len() != 4 + be_u32_value(frame) {
        Err(IpcError::MalformedFrame("length_mismatch"))
    } else {
        Ok(frame.skip(4))
    }
}

/// The header of a frame spells the length that was written into it.
pub proof fn lemma_be_u32_round_trip(v: u32)
    ensures
        be_u32_value(be_u32(v)) == v,
{
    let b = be_u32(v);
    assert(b[0] == (v >> 24u32) as u8 && b[1] == (v >> 16u32) as u8 && b[2] == (v >> 8u32) as u8
        && b[3] == v as u8);
    assert(((((v >> 24u32) as u8) as u32) << 24u32) | ((((v >> 16u32) as u8) as u32) << 16u32) | (((
    (v >> 8u32) as u8) as u32) << 8u32) | ((v as u8) as u32) == v) by (bit_vector);
}

/// Reading a frame gives back exactly the body that was framed.
pub proof fn lemma_unframe_frame(body: Seq<u8>)
    requires
        frame_result(body) is Ok,
    ensures
        frame_result(body) == Ok::<Seq<u8>, IpcError>(frame_of(body)),
        unframe_result(frame_of(body)) == Ok::<Seq<u8>, IpcError>(body),
{
    let f = frame_of(body);
    lemma_be_u32_round_trip(body.len() as u32);
    assert(f.take(4) =~= be_u32(body.len() as u32));
    assert(be_u32_value(f) == be_u32_value(be_u32(body.len() as u32)));
    assert(f.skip(4) =~= body);
}

/// Frames a body: a 4-byte big-endian length, then the body itself.
pub fn frame_body(body: Vec<u8>) -> (r: Result<Vec<u8>, IpcError>)
    ensures
        match r {
            Ok(f) => frame_result(body@) == Ok::<Seq<u8>, IpcError>(f@),
            Err(e) => frame_result(body@) == Err::<Seq<u8>, IpcError>(e),
        },
{
    if body.len() == 0 || body.len() > IPC_MAX_WIRE_BODY_SIZE {
        return Err(IpcError::OversizedFrame);
    }
    let length: u32 = body.len() as u32;
    let mut frame: Vec<u8> = Vec::new();
    crate::encoding::push_u32(&mut frame, length);
    push_raw(&mut frame, body.as_slice());
    assert(frame@ =~= frame_of(body@));
    Ok(frame)
}

/// Reads a frame: checks its header against the wire limit and the frame's
/// own length, and gives back the body.
pub fn unframe_body(frame: &[u8]) -> (r: Result<Vec<u8>, IpcError>)
    ensures
        match r {
            Ok(b) => unframe_result(frame@) == Ok::<Seq<u8>, IpcError>(b@),
            Err(e) => unframe_result(frame@) == Err::<Seq<u8>, IpcError>(e),
        },
{
    if frame.len() < FRAME_HEADER_LEN {
        return Err(IpcError::MalformedFrame("length_prefix"));
    }
    let declared: u32 = ((frame[0] as u32) << 24u32) | ((frame[1] as u32) << 16u32) | ((
    frame[2] as u32) << 8u32) | (frame[3] as u32);
    assert(declared == be_u32_value(frame@));
    if declared == 0 || declared as usize > IPC_MAX_WIRE_BODY_SIZE {
        return Err(IpcError::OversizedFrame);
    }
    if frame.len() - FRAME_HEADER_LEN != declared as usize {
        return Err(IpcError::MalformedFrame("length_mismatch"));
    }
    let mut body: Vec<u8> = Vec::new();
    let mut i: usize = FRAME_HEADER_LEN;
    while i < frame.len()
        invariant
            FRAME_HEADER_LEN <= i <= frame@.len(),
            body@ == frame@.subrange(FRAME_HEADER_LEN as int, i as int),
        decreases frame@.len() - i,
    {
        body.push(frame[i]);
        i = i + 1;
        assert(body@ =~= frame@.subrange(FRAME_HEADER_LEN as int, i as int));
    }
    assert(body@ =~= frame@.skip(FRAME_HEADER_LEN as int));
    Ok(body)
}

/// What the frame reader gives for what the codec decoded: a decoded
/// envelope is kept only where the protocol accepts it.
pub open spec fn decoded_result(decoded: Result<IpcEnvelope, IpcError>) -> Result<IpcEnvelope, IpcError> {
    match decoded {
        Ok(envelope) => match envelope_check(envelope) {
            Some(e) => Err(e),
            None => Ok(envelope),
        },
        Err(e) => Err(e),
    }
}

/// Checks what a codec decoded against the protocol.
pub fn check_decoded(decoded: Result<IpcEnvelope, IpcError>) -> (r: Result<IpcEnvelope, IpcError>)
    ensures
        r == decoded_result(decoded),
{
    match decoded {
        Ok(envelope) => match validate_envelope(&envelope) {
            Ok(()) => Ok(envelope),
            Err(e) => Err(e),
        },
        Err(e) => Err(e),
    }
}

/// Validates an envelope, encodes it with the codec and frames the body.
/// A codec's refusal is passed on; where the codec models its encoding, the
/// frame is exactly the framed body it describes.
pub fn encode_frame<C: IpcCodec>(codec: &C, envelope: &IpcEnvelope) -> (r: Result<Vec<u8>, IpcError>)
    ensures
        envelope_check(*envelope) matches Some(e) ==> r == Err::<Vec<u8>, IpcError>(e),
        envelope_check(*envelope) is None ==> exists|encoded: Result<Seq<u8>, IpcError>|
            body_view(r) == #[trigger] encoded_frame(encoded) && (codec.models_encoding()
                ==> encoded == codec.spec_encode(*envelope)),
        r matches Ok(f) ==> envelope_check(*envelope) is None && exists|body: Seq<u8>|
            frame_result(body) == Ok::<Seq<u8>, IpcError>(#[trigger] frame_of(body)) && f@
                == frame_of(body),
{
    match validate_envelope(envelope) {
        Ok(()) => {},
        Err(e) => {
            return Err(e);
        },
    }
    let encoded = codec.encode(envelope);
    let ghost enc = body_view(encoded);
    let body = match encoded {
        Ok(body) => body,
        Err(e) => {
            assert(body_view(Err::<Vec<u8>, IpcError>(e)) == encoded_frame(enc));
            return Err(e);
        },
    };
    let ghost b = body@;
    let r = frame_body(body);
    proof {
        assert(body_view(r) == encoded_frame(enc));
        if r is Ok {
            assert(frame_result(b) == Ok::<Seq<u8>, IpcError>(frame_of(b)));
        }
    }
    r
}

/// Reads a frame, decodes its body with the codec and validates the envelope.
/// Where the codec models its decoding, the result is exactly the checked
/// decoding of the frame's body.
pub fn decode_frame<C: IpcCodec>(codec: &C, frame: &[u8]) -> (r: Result<IpcEnvelope, IpcError>)
    ensures
        unframe_result(frame@) matches Err(e) ==> r == Err::<IpcEnvelope, IpcError>(e),
        unframe_result(frame@) matches Ok(body) ==> exists|decoded: Result<IpcEnvelope, IpcError>|
            r == #[trigger] decoded_result(decoded) && (codec.models_decoding() ==> decoded
                == codec.spec_decode(body)),
        r matches Ok(envelope) ==> unframe_result(frame@) is Ok && envelope_check(envelope) is None,
{
    let body = match unframe_body(frame) {
        Ok(body) => body,
        Err(e) => {
            return Err(e);
        },
    };
    let decoded = codec.decode(body.as_slice());
    let ghost d = decoded;
    let r = check_decoded(decoded);
    assert(r == decoded_result(d));
    r
}

/// Framing and then decoding gives back the envelope where the codec reads
/// back what it wrote: a valid envelope survives the round trip.
pub proof fn lemma_frame_round_trip<C: IpcCodec>(codec: C, envelope: IpcEnvelope, body: Seq<u8>)
    requires
        envelope_check(envelope) is None,
        codec.models_encoding(),
        codec.models_decoding(),
        codec.spec_encode(envelope) == Ok::<Seq<u8>, IpcError>(body),
        codec.spec_decode(body) == Ok::<IpcEnvelope, IpcError>(envelope),
        frame_result(body) is Ok,
    ensures
        encoded_frame(codec.spec_encode(envelope)) == Ok::<Seq<u8>, IpcError>(frame_of(body)),
        unframe_result(frame_of(body)) == Ok::<Seq<u8>, IpcError>(body),
        decoded_result(codec.spec_decode(body)) == Ok::<IpcEnvelope, IpcError>(envelope),
{
    lemma_unframe_frame(body);
}

pub open spec fn kind_byte(kind: IpcMessageKind) -> u8 {
    match kind {
        IpcMessageKind::Request => 1,
        IpcMessageKind::Response => 2,
        IpcMessageKind::Event => 3,
    }
}

pub open spec fn status_byte(status: ResponseStatus) -> u8 {
    match status {
        ResponseStatus::Success => 1,
        ResponseStatus::Error => 2,
        ResponseStatus::Rejected => 3,
    }
}

/// An optional text: a presence byte, then the text field when present.
pub open spec fn optional_text_field(value: Option<String>) -> Seq<u8> {
    match value {
        Some(v) => seq![1u8] + text_field(v@),
        None => seq![0u8],
    }
}

/// The fields that follow the common header of canonical material.
pub open spec fn material_body(e: IpcEnvelope) -> Seq<u8> {
    match e {
        IpcEnvelope::Request(m) => text_field(m.correlation_id@) + be_u64(m.sequence) + text_field(
            m.method@,
        ) + length_prefixed(m.payload@),
        IpcEnvelope::Response(m) => text_field(m.correlation_id@) + be_u64(m.sequence) + seq![
            status_byte(m.status),
        ] + optional_text_field(m.error_code) + length_prefixed(m.payload@),
        IpcEnvelope::Event(m) => text_field(m.event_id@) + be_u64(m.sequence) + text_field(
            m.event_type@,
        ) + length_prefixed(m.payload@),
    }
}

/// The canonical bytes that a message proof covers: the domain, the kind,
/// the protocol version, the session and then the kind's own fields. The
/// proof of a message never travels inside its material.
pub open spec fn material_spec(e: IpcEnvelope) -> Seq<u8> {
    ipc_domain() + seq![kind_byte(kind_spec(e))] + be_u16(protocol_version_spec(e))
        + length_prefixed(session_id_spec(e)@) + material_body(e)
}

fn push_optional_string(output: &mut Vec<u8>, value: &Option<String>)
    ensures
        final(output)@ == old(output)@ + optional_text_field(*value),
{
    match value {
        Some(v) => {
            output.push(1u8);
            push_string(output, v.as_str());
        },
        None => {
            output.push(0u8);
        },
    }
    assert(final(output)@ =~= old(output)@ + optional_text_field(*value));
}

/// The canonical material of a valid envelope; an invalid one is refused
/// with the reason `validate_envelope` gives.
pub fn canonical_message_material(envelope: &IpcEnvelope) -> (r: Result<Vec<u8>, IpcError>)
    ensures
        match envelope_check(*envelope) {
            Some(e) => r == Err::<Vec<u8>, IpcError>(e),
            None => r matches Ok(m) && m@ == material_spec(*envelope),
        },
{
    match validate_envelope(envelope) {
        Ok(()) => {},
        Err(e) => {
            return Err(e);
        },
    }
    let mut output: Vec<u8> = Vec::new();
    let domain: [u8; 21] = [
        78, 65, 86, 69, 69, 78, 45, 73, 80, 67, 45, 77, 69, 83, 83, 65, 71, 69, 45, 86, 49,
    ];
    assert(domain@ =~= ipc_domain());
    push_raw(&mut output, &domain);
    let kind: u8 = match envelope.kind() {
        IpcMessageKind::Request => 1,
        IpcMessageKind::Response => 2,
        IpcMessageKind::Event => 3,
    };
    output.push(kind);
    push_u16(&mut output, envelope.protocol_version());
    let session = envelope.session_id();
    push_bytes(&mut output, &session);
    let ghost header = output@;
    assert(header =~= ipc_domain() + seq![kind_byte(kind_spec(*envelope))] + be_u16(
        protocol_version_spec(*envelope),
    ) + length_prefixed(session_id_spec(*envelope)@));
    match envelope {
        IpcEnvelope::Request(m) => {
            push_string(&mut output, m.correlation_id.as_str());
            push_u64(&mut output, m.sequence);
            push_string(&mut output, m.method.as_str());
            push_bytes(&mut output, m.payload.as_slice());
        },
        IpcEnvelope::Response(m) => {
            push_string(&mut output, m.correlation_id.as_str());
            push_u64(&mut output, m.sequence);
            let status: u8 = match m.status {
                ResponseStatus::Success => 1,
                ResponseStatus::Error => 2,
                ResponseStatus::Rejected => 3,
            };
            output.push(status);
            push_optional_string(&mut output, &m.error_code);
            push_bytes(&mut output, m.payload.as_slice());
        },
        IpcEnvelope::Event(m) => {
            push_string(&mut output, m.event_id.as_str());
            push_u64(&mut output, m.sequence);
            push_string(&mut output, m.event_type.as_str());
            push_bytes(&mut output, m.payload.as_slice());
        },
    }
    assert(output@ =~= header + material_body(*envelope));
    Ok(output)
}

/// Canonical material tells message kinds apart: material of a request never
/// equals material of a response or an event.
pub proof fn lemma_material_separates_kinds(a: IpcEnvelope, b: IpcEnvelope)
    requires
        kind_spec(a) != kind_spec(b),
    ensures
        material_spec(a) != material_spec(b),
{
    let i = ipc_domain().len() as int;
    assert(material_spec(a)[i] == kind_byte(kind_spec(a)));
    assert(material_spec(b)[i] == kind_byte(kind_spec(b)));
}


/// A bidirectional carrier of frames. Implementations own the channel; the
/// connection decides what is accepted.
///
/// `sent_frames` records what a transport accepted for sending only where
/// `models_sent` holds; transports written outside verified code keep the
/// defaults, so that nothing is claimed of them.
pub trait IpcTransport {
    /// Whether `sent_frames` records what this transport accepted.
    open spec fn models_sent(&self) -> bool {
        false
    }

    /// The frames this transport accepted for sending, oldest first.
    open spec fn sent_frames(&self) -> Seq<Seq<u8>> {
        Seq::empty()
    }

    /// Sends one frame; a transport that records what it sends appends the
    /// frame when it accepts it, and only then.
    fn send_frame(&mut self, frame: &[u8]) -> (r: Result<(), IpcError>)
        ensures
            old(self).models_sent() ==> final(self).models_sent() && final(self).sent_frames() == (
            if r is Ok {
                old(self).sent_frames().push(frame@)
            } else {
                old(self).sent_frames()
            }),
    ;

    fn recv_frame(&mut self, timeout: Duration) -> (r: Result<Vec<u8>, IpcError>)
        ensures
            old(self).models_sent() ==> final(self).models_sent() && final(self).sent_frames()
                == old(self).sent_frames(),
    ;

    /// Whether this transport's shutdown always succeeds; transports that
    /// keep the default claim nothing.
    open spec fn shutdown_succeeds(&self) -> bool {
        false
    }

    fn shutdown(&mut self) -> (r: Result<(), IpcError>)
        ensures
            old(self).models_sent() ==> final(self).models_sent() && final(self).sent_frames()
                == old(self).sent_frames(),
            old(self).shutdown_succeeds() ==> r is Ok,
    ;
}

pub open spec fn connection_event(
    event_type: IpcAuditEventType,
    reason: Option<IpcAuditReason>,
) -> IpcAuditView {
    IpcAuditView {
        event_type,
        timestamp_ms: 0,
        protocol_version: IPC_PROTOCOL_VERSION,
        correlation_id: None,
        session_id: None,
        reason,
    }
}

pub open spec fn closed_event() -> IpcAuditView {
    connection_event(IpcAuditEventType::ConnectionClosed, None)
}

/// The reason recorded for a transport failure, where it is one worth
/// recording.
pub open spec fn transport_error_reason(e: IpcError) -> Option<IpcAuditReason> {
    match e {
        IpcError::Timeout => Some(IpcAuditReason::Timeout),
        IpcError::Closed => Some(IpcAuditReason::Closed),
        IpcError::Transport(_) => Some(IpcAuditReason::TransportFailure),
        _ => None,
    }
}

/// Transport failures after which the connection cannot be trusted to stay
/// in sync, and is closed.
pub open spec fn transport_error_closes(e: IpcError) -> bool {
    match e {
        IpcError::Closed | IpcError::MalformedFrame(_) | IpcError::OversizedFrame => true,
        _ => false,
    }
}

/// The reason recorded for a refused frame.
pub open spec fn frame_error_reason(e: IpcError) -> IpcAuditReason {
    match e {
        IpcError::UnsupportedProtocolVersion { .. } => IpcAuditReason::UnsupportedProtocolVersion,
        IpcError::MalformedFrame(_) => IpcAuditReason::MalformedFrame,
        IpcError::OversizedFrame => IpcAuditReason::OversizedFrame,
        IpcError::InvalidEnvelope(_) => IpcAuditReason::InvalidEnvelope,
        _ => IpcAuditReason::MalformedFrame,
    }
}

/// The audit log after a transport failure on an open connection.
pub open spec fn transport_failure_log(log: Seq<IpcAuditView>, e: IpcError) -> Seq<IpcAuditView> {
    let logged = match transport_error_reason(e) {
        Some(reason) => ipc_push_bounded(
            log,
            connection_event(IpcAuditEventType::FrameRejected, Some(reason)),
        ),
        None => log,
    };
    if transport_error_closes(e) {
        ipc_push_bounded(logged, closed_event())
    } else {
        logged
    }
}

/// The audit log after a refused frame: the refusal, then the closing.
pub open spec fn frame_failure_log(log: Seq<IpcAuditView>, e: IpcError) -> Seq<IpcAuditView> {
    ipc_push_bounded(
        ipc_push_bounded(
            log,
            connection_event(IpcAuditEventType::FrameRejected, Some(frame_error_reason(e))),
        ),
        closed_event(),
    )
}

/// What an open connection does with what its transport delivered: the
/// result, whether it stays open, and its audit log afterwards.
pub open spec fn receive_step(
    log: Seq<IpcAuditView>,
    received: Result<Vec<u8>, IpcError>,
    r: Result<IpcEnvelope, IpcError>,
    open_after: bool,
    log_after: Seq<IpcAuditView>,
) -> bool {
    match received {
        Err(e) => {
            &&& r == Err::<IpcEnvelope, IpcError>(e)
            &&& open_after == !transport_error_closes(e)
            &&& log_after == transport_failure_log(log, e)
        },
        Ok(frame) => match unframe_result(frame@) {
            Err(e) => {
                &&& r == Err::<IpcEnvelope, IpcError>(e)
                &&& !open_after
                &&& log_after == frame_failure_log(log, e)
            },
            Ok(_) => match r {
                Ok(envelope) => {
                    &&& envelope_check(envelope) is None
                    &&& open_after
                    &&& log_after == log
                },
                Err(e) => {
                    &&& !open_after
                    &&& log_after == frame_failure_log(log, e)
                },
            },
        },
    }
}

/// What a connection returns for a frame that unframes: the protocol's check
/// of what the codec decoded from the frame's body, which is exactly the
/// codec's decoding of that body where the codec models one.
pub open spec fn decodes_received<C: IpcCodec>(
    codec: C,
    received: Result<Vec<u8>, IpcError>,
    r: Result<IpcEnvelope, IpcError>,
) -> bool {
    match received {
        Ok(frame) => match unframe_result(frame@) {
            Ok(body) => exists|decoded: Result<IpcEnvelope, IpcError>|
                r == #[trigger] decoded_result(decoded) && (codec.models_decoding() ==> decoded
                    == codec.spec_decode(body)),
            Err(_) => true,
        },
        Err(_) => true,
    }
}

/// A framed, validated connection over a transport, with a bounded audit log.
pub struct IpcConnection<T: IpcTransport, C: IpcCodec> {
    transport: T,
    codec: C,
    open: bool,
    audit_events: VecDeque<IpcAuditEvent>,
}

impl<T: IpcTransport, C: IpcCodec> IpcConnection<T, C> {
    pub closed spec fn wf(&self) -> bool {
        self.audit_events@.len() <= IPC_MAX_AUDIT_EVENTS
    }

    pub closed spec fn is_open_spec(&self) -> bool {
        self.open
    }

    /// The transport the connection speaks over.
    pub closed spec fn spec_transport(&self) -> T {
        self.transport
    }

    /// The codec that encodes and decodes the connection's bodies.
    pub closed spec fn spec_codec(&self) -> C {
        self.codec
    }

    /// The audit log, oldest event first.
    pub closed spec fn audit(&self) -> Seq<IpcAuditView> {
        self.audit_events@.map_values(|e: IpcAuditEvent| e@)
    }

    pub fn new(transport: T) -> (r: Self)
        where C: Default,
        ensures
            r.wf(),
            r.is_open_spec(),
            r.audit() == Seq::<IpcAuditView>::empty(),
            r.spec_transport() == transport,
    {
        Self::with_codec(transport, C::default())
    }

    pub fn with_codec(transport: T, codec: C) -> (r: Self)
        ensures
            r.wf(),
            r.is_open_spec(),
            r.audit() == Seq::<IpcAuditView>::empty(),
            r.spec_transport() == transport,
            r.spec_codec() == codec,
    {
        let r = IpcConnection { transport, codec, open: true, audit_events: VecDeque::new() };
        assert(r.audit() =~= Seq::<IpcAuditView>::empty());
        r
    }

    pub fn is_open(&self) -> (r: bool)
        ensures
            r == self.is_open_spec(),
    {
        self.open
    }

    /// Sends an envelope; a closed connection and an invalid envelope are
    /// refused before anything reaches the transport. Otherwise one frame,
    /// the framed body the codec made of the envelope, is handed to the
    /// transport, and its answer is the result.
    pub fn send(&mut self, envelope: &IpcEnvelope) -> (r: Result<(), IpcError>)
        requires
            old(self).wf(),
        ensures
            final(self).wf(),
            final(self).is_open_spec() == old(self).is_open_spec(),
            final(self).audit() == old(self).audit(),
            final(self).spec_codec() == old(self).spec_codec(),
            !old(self).is_open_spec() ==> r == Err::<(), IpcError>(IpcError::Closed),
            old(self).is_open_spec() ==> (envelope_check(*envelope) matches Some(e) ==> r == Err::<
                (),
                IpcError,
            >(e)),
            r is Ok ==> old(self).is_open_spec() && envelope_check(*envelope) is None,
            old(self).spec_transport().models_sent() ==> final(self).spec_transport().models_sent()
                && records_send(
                old(self).spec_transport().sent_frames(),
                final(self).spec_transport().sent_frames(),
                old(self).spec_codec(),
                |e: IpcEnvelope| e == *envelope,
                r is Ok,
            ),
    {
        if !self.open {
            return Err(IpcError::Closed);
        }
        let frame = match encode_frame(&self.codec, envelope) {
            Ok(frame) => frame,
            Err(e) => {
                return Err(e);
            },
        };
        let ghost enc = choose|enc: Result<Seq<u8>, IpcError>|
            body_view(Ok::<Vec<u8>, IpcError>(frame)) == #[trigger] encoded_frame(enc) && (
            self.codec.models_encoding() ==> enc == self.codec.spec_encode(*envelope));
        let ghost body = enc->Ok_0;
        assert(frame@ == frame_of(body) && frame_result(body) == Ok::<Seq<u8>, IpcError>(
            frame_of(body),
        ));
        let r = self.transport.send_frame(frame.as_slice());
        proof {
            let sent = |e: IpcEnvelope| e == *envelope;
            assert(sent(*envelope));
            if r is Ok && old(self).transport.models_sent() {
                assert(self.transport.sent_frames() == old(self).transport.sent_frames().push(
                    frame_of(body),
                ));
            }
        }
        r
    }

    /// Receives one envelope. A closed connection refuses at once; otherwise
    /// what the transport delivers goes through `process_received`.
    pub fn receive(&mut self, timeout: Duration) -> (r: Result<IpcEnvelope, IpcError>)
        requires
            old(self).wf(),
        ensures
            final(self).wf(),
            !old(self).is_open_spec() ==> {
                &&& r == Err::<IpcEnvelope, IpcError>(IpcError::Closed)
                &&& !final(self).is_open_spec()
                &&& final(self).audit() == old(self).audit()
            },
            old(self).is_open_spec() ==> exists|received: Result<Vec<u8>, IpcError>|
                #[trigger] receive_step(
                    old(self).audit(),
                    received,
                    r,
                    final(self).is_open_spec(),
                    final(self).audit(),
                ) && decodes_received(old(self).spec_codec(), received, r),
            final(self).spec_codec() == old(self).spec_codec(),
    {
        if !self.open {
            return Err(IpcError::Closed);
        }
        let received = self.transport.recv_frame(timeout);
        let ghost delivered = received;
        let r = self.process_received(received);
        assert(receive_step(old(self).audit(), delivered, r, self.is_open_spec(), self.audit()));
        assert(decodes_received(old(self).spec_codec(), delivered, r));
        r
    }

    /// Handles what the transport delivered to an open connection: failures
    /// are recorded, and those that leave the stream out of sync close it;
    /// a frame is unframed, decoded and validated, and a refused frame closes
    /// the connection. What comes back for a frame is the checked decoding
    /// of its body.
    pub fn process_received(&mut self, received: Result<Vec<u8>, IpcError>) -> (r: Result<
        IpcEnvelope,
        IpcError,
    >)
        requires
            old(self).wf(),
            old(self).is_open_spec(),
        ensures
            final(self).wf(),
            receive_step(
                old(self).audit(),
                received,
                r,
                final(self).is_open_spec(),
                final(self).audit(),
            ),
            decodes_received(old(self).spec_codec(), received, r),
            final(self).spec_codec() == old(self).spec_codec(),
    {
        let frame = match received {
            Ok(frame) => frame,
            Err(error) => {
                self.record_transport_error(&error);
                let closes = match error {
                    IpcError::Closed | IpcError::MalformedFrame(_) | IpcError::OversizedFrame => true,
                    _ => false,
                };
                if closes {
                    let _ = self.shutdown();
                }
                return Err(error);
            },
        };
        match decode_frame(&self.codec, frame.as_slice()) {
            Ok(envelope) => Ok(envelope),
            Err(error) => {
                self.record_frame_error(&error);
                let _ = self.shutdown();
                Err(error)
            },
        }
    }

    /// Drains the audit log, oldest event first.
    pub fn take_audit_events(&mut self) -> (r: Vec<IpcAuditEvent>)
        requires
            old(self).wf(),
        ensures
            final(self).wf(),
            r@.map_values(|e: IpcAuditEvent| e@) == old(self).audit(),
            final(self).audit() == Seq::<IpcAuditView>::empty(),
            final(self).is_open_spec() == old(self).is_open_spec(),
    {
        let ghost initial_log = self.audit_events@;
        let mut out: Vec<IpcAuditEvent> = Vec::new();
        while self.audit_events.len() > 0
            invariant
                out@ + self.audit_events@ == initial_log,
                self.audit_events@.len() <= IPC_MAX_AUDIT_EVENTS,
                self.open == old(self).open,
                initial_log == old(self).audit_events@,
            decreases self.audit_events@.len(),
        {
            match self.audit_events.pop_front() {
                Some(e) => {
                    out.push(e);
                },
                None => {},
            }
            assert(out@ + self.audit_events@ =~= initial_log);
        }
        assert(out@ =~= initial_log);
        assert(out@.map_values(|e: IpcAuditEvent| e@) =~= old(self).audit());
        assert(self.audit() =~= Seq::<IpcAuditView>::empty());
        out
    }

    /// Closes the connection. Closing a closed connection succeeds and
    /// changes nothing; the first closing records it and hands back what the
    /// transport's own shutdown reported.
    pub fn shutdown(&mut self) -> (r: Result<(), IpcError>)
        requires
            old(self).wf(),
        ensures
            final(self).wf(),
            !final(self).is_open_spec(),
            !old(self).is_open_spec() ==> r is Ok && final(self).audit() == old(self).audit(),
            old(self).is_open_spec() ==> final(self).audit() == ipc_push_bounded(
                old(self).audit(),
                closed_event(),
            ),
            old(self).is_open_spec() && old(self).spec_transport().shutdown_succeeds() ==> r is Ok,
            final(self).spec_codec() == old(self).spec_codec(),
            old(self).spec_transport().models_sent() ==> final(self).spec_transport().models_sent()
                && final(self).spec_transport().sent_frames() == old(self).spec_transport().sent_frames(),
    {
        if !self.open {
            return Ok(());
        }
        self.open = false;
        let result = self.transport.shutdown();
        self.record(
            IpcAuditEvent {
                event_type: IpcAuditEventType::ConnectionClosed,
                timestamp_ms: 0,
                protocol_version: IPC_PROTOCOL_VERSION,
                correlation_id: None,
                session_id: None,
                reason: None,
            },
        );
        result
    }

    fn record_transport_error(&mut self, error: &IpcError)
        requires
            old(self).wf(),
        ensures
            final(self).wf(),
            final(self).codec == old(self).codec,
            final(self).is_open_spec() == old(self).is_open_spec(),
            final(self).audit() == match transport_error_reason(*error) {
                Some(reason) => ipc_push_bounded(
                    old(self).audit(),
                    connection_event(IpcAuditEventType::FrameRejected, Some(reason)),
                ),
                None => old(self).audit(),
            },
    {
        let reason = match error {
            IpcError::Timeout => Some(IpcAuditReason::Timeout),
            IpcError::Closed => Some(IpcAuditReason::Closed),
            IpcError::Transport(_) => Some(IpcAuditReason::TransportFailure),
            _ => None,
        };
        match reason {
            Some(reason) => {
                self.record(
                    IpcAuditEvent {
                        event_type: IpcAuditEventType::FrameRejected,
                        timestamp_ms: 0,
                        protocol_version: IPC_PROTOCOL_VERSION,
                        correlation_id: None,
                        session_id: None,
                        reason: Some(reason),
                    },
                );
            },
            None => {},
        }
    }

    fn record_frame_error(&mut self, error: &IpcError)
        requires
            old(self).wf(),
        ensures
            final(self).wf(),
            final(self).codec == old(self).codec,
            final(self).is_open_spec() == old(self).is_open_spec(),
            final(self).audit() == ipc_push_bounded(
                old(self).audit(),
                connection_event(IpcAuditEventType::FrameRejected, Some(frame_error_reason(*error))),
            ),
    {
        let reason = match error {
            IpcError::UnsupportedProtocolVersion { .. } => IpcAuditReason::UnsupportedProtocolVersion,
            IpcError::MalformedFrame(_) => IpcAuditReason::MalformedFrame,
            IpcError::OversizedFrame => IpcAuditReason::OversizedFrame,
            IpcError::InvalidEnvelope(_) => IpcAuditReason::InvalidEnvelope,
            _ => IpcAuditReason::MalformedFrame,
        };
        self.record(
            IpcAuditEvent {
                event_type: IpcAuditEventType::FrameRejected,
                timestamp_ms: 0,
                protocol_version: IPC_PROTOCOL_VERSION,
                correlation_id: None,
                session_id: None,
                reason: Some(reason),
            },
        );
    }

    fn record(&mut self, event: IpcAuditEvent)
        requires
            old(self).wf(),
        ensures
            final(self).wf(),
            final(self).is_open_spec() == old(self).is_open_spec(),
            final(self).audit() == ipc_push_bounded(old(self).audit(), event@),
            final(self).transport == old(self).transport,
            final(self).codec == old(self).codec,
    {
        let ghost before = self.audit_events@;
        if self.audit_events.len() >= IPC_MAX_AUDIT_EVENTS {
            let _ = self.audit_events.pop_front();
        }
        self.audit_events.push_back(event);
        proof {
            if before.len() >= IPC_MAX_AUDIT_EVENTS {
                assert(self.audit_events@ =~= before.drop_first().push(event));
            }
            assert(self.audit() =~= ipc_push_bounded(
                before.map_values(|e: IpcAuditEvent| e@),
                event@,
            ));
        }
    }
}


/// The audit log after `shutdown` on a connection that was open or not.
pub open spec fn closing_log(open: bool, log: Seq<IpcAuditView>) -> Seq<IpcAuditView> {
    if open {
        ipc_push_bounded(log, closed_event())
    } else {
        log
    }
}

/// An audit record about one request.
pub open spec fn request_event(
    event_type: IpcAuditEventType,
    now_ms: u64,
    request: RequestEnvelope,
    reason: Option<IpcAuditReason>,
) -> IpcAuditView {
    IpcAuditView {
        event_type,
        timestamp_ms: now_ms,
        protocol_version: request.protocol_version,
        correlation_id: Some(request.correlation_id@),
        session_id: Some(request.session_id@),
        reason,
    }
}

/// What the channel does with the authenticator's verdict on a request: a
/// refusal is recorded and closes the connection; an acceptance is recorded
/// and hands the request on.
pub open spec fn conclusion_step(
    open: bool,
    log: Seq<IpcAuditView>,
    request: RequestEnvelope,
    verdict: Result<(), AuthError>,
    now_ms: u64,
    r: Result<RequestEnvelope, IpcError>,
    open_after: bool,
    log_after: Seq<IpcAuditView>,
) -> bool {
    match verdict {
        Err(e) => {
            &&& r == Err::<RequestEnvelope, IpcError>(IpcError::Authentication(e))
            &&& !open_after
            &&& log_after == closing_log(
                open,
                ipc_push_bounded(
                    log,
                    request_event(
                        IpcAuditEventType::FrameRejected,
                        now_ms,
                        request,
                        Some(IpcAuditReason::AuthenticationRejected),
                    ),
                ),
            )
        },
        Ok(()) => {
            &&& r == Ok::<RequestEnvelope, IpcError>(request)
            &&& open_after == open
            &&& log_after == ipc_push_bounded(
                log,
                request_event(IpcAuditEventType::RequestAccepted, now_ms, request, None),
            )
        },
    }
}

/// The response that answers a request.
pub open spec fn response_for(
    request: RequestEnvelope,
    status: ResponseStatus,
    error_code: Option<String>,
    payload: Vec<u8>,
) -> ResponseEnvelope {
    ResponseEnvelope {
        protocol_version: IPC_PROTOCOL_VERSION,
        correlation_id: request.correlation_id,
        session_id: request.session_id,
        sequence: request.sequence,
        status,
        error_code,
        payload,
        proof: None,
    }
}

/// The unsigned event of a session, as the host sends it.
pub open spec fn event_of(
    session_id: [u8; 16],
    sequence: u64,
    event_id: String,
    event_type: String,
    payload: Vec<u8>,
) -> EventEnvelope {
    EventEnvelope {
        protocol_version: IPC_PROTOCOL_VERSION,
        event_id,
        session_id,
        sequence,
        event_type,
        payload,
        proof: None,
    }
}

/// An IPC connection to the Core bound to one authenticated session: every
/// request must belong to the session and carry a proof that the
/// authenticator accepts.
pub struct AuthenticatedCoreChannel<T: IpcTransport, C: IpcCodec, A: AuthenticationProvider> {
    connection: IpcConnection<T, C>,
    auth: A,
    session: AuthenticatedSession,
}

impl<T: IpcTransport, C: IpcCodec, A: AuthenticationProvider> AuthenticatedCoreChannel<T, C, A> {
    pub closed spec fn wf(&self) -> bool {
        self.connection.wf() && self.auth.provider_inv()
    }

    pub closed spec fn is_open_spec(&self) -> bool {
        self.connection.is_open_spec()
    }

    pub closed spec fn audit(&self) -> Seq<IpcAuditView> {
        self.connection.audit()
    }

    /// Whether the channel's transport records what it sends.
    pub closed spec fn models_sent(&self) -> bool {
        self.connection.spec_transport().models_sent()
    }

    /// The frames the channel's transport accepted for sending.
    pub closed spec fn sent_frames(&self) -> Seq<Seq<u8>> {
        self.connection.spec_transport().sent_frames()
    }

    pub closed spec fn spec_codec(&self) -> C {
        self.connection.spec_codec()
    }

    /// The session id the channel is bound to.
    pub closed spec fn bound_session_id(&self) -> Seq<u8> {
        self.session.spec_session_id()
    }

    /// The session the channel is bound to.
    pub closed spec fn spec_session(&self) -> AuthenticatedSession {
        self.session
    }

    /// The authenticator that judges the channel's requests.
    pub closed spec fn spec_auth(&self) -> A {
        self.auth
    }

    pub fn new(transport: T, auth: A, session: AuthenticatedSession) -> (r: Self)
        where C: Default,
        requires
            auth.provider_inv(),
        ensures
            r.wf(),
            r.is_open_spec(),
            r.audit() == Seq::<IpcAuditView>::empty(),
            r.bound_session_id() == session.spec_session_id(),
            r.spec_session() == session,
            r.spec_auth() == auth,
            r.models_sent() == transport.models_sent(),
            r.sent_frames() == transport.sent_frames(),
    {
        Self::with_codec(transport, C::default(), auth, session)
    }

    pub fn with_codec(transport: T, codec: C, auth: A, session: AuthenticatedSession) -> (r: Self)
        requires
            auth.provider_inv(),
        ensures
            r.wf(),
            r.is_open_spec(),
            r.audit() == Seq::<IpcAuditView>::empty(),
            r.bound_session_id() == session.spec_session_id(),
            r.spec_session() == session,
            r.spec_auth() == auth,
            r.spec_codec() == codec,
            r.models_sent() == transport.models_sent(),
            r.sent_frames() == transport.sent_frames(),
    {
        AuthenticatedCoreChannel {
            connection: IpcConnection::with_codec(transport, codec),
            auth,
            session,
        }
    }

    /// The underlying connection.
    pub fn connection(&self) -> (r: &IpcConnection<T, C>)
        ensures
            r.is_open_spec() == self.is_open_spec(),
            r.audit() == self.audit(),
    {
        &self.connection
    }

    /// Receives one request and authenticates it; anything else, or anything
    /// refused, closes the connection.
    pub fn receive_request(&mut self, timeout: Duration, now_ms: u64) -> (r: Result<
        RequestEnvelope,
        IpcError,
    >)
        requires
            old(self).wf(),
        ensures
            final(self).wf(),
            final(self).bound_session_id() == old(self).bound_session_id(),
            !old(self).is_open_spec() ==> r == Err::<RequestEnvelope, IpcError>(IpcError::Closed)
                && final(self).audit() == old(self).audit(),
            r matches Ok(request) ==> {
                &&& request_check(request) is None
                &&& request.session_id@ == old(self).bound_session_id()
                &&& final(self).is_open_spec()
                &&& final(self).audit().last() == request_event(
                    IpcAuditEventType::RequestAccepted,
                    now_ms,
                    request,
                    None,
                )
            },
            old(self).spec_auth().models_verdict() ==> (r matches Ok(request) ==> old(self).spec_auth().spec_verdict(
                old(self).spec_session(),
                request.protocol_version,
                request.correlation_id@,
                request.sequence,
                material_spec(IpcEnvelope::Request(request)),
                request.proof@,
                now_ms,
            ) is Ok),
            final(self).spec_session() == old(self).spec_session(),
            old(self).spec_auth().models_verdict() ==> final(self).spec_auth().models_verdict(),
    {
        let envelope = match self.connection.receive(timeout) {
            Ok(envelope) => envelope,
            Err(e) => {
                return Err(e);
            },
        };
        assert(self.spec_auth() == old(self).spec_auth());
        assert(self.spec_session() == old(self).spec_session());
        let ghost env = envelope;
        let r = self.accept_envelope(envelope, now_ms);
        proof {
            if r is Ok && old(self).spec_auth().models_verdict() {
                let request = env->Request_0;
                assert(env is Request);
                assert(request.session_id@ == old(self).bound_session_id());
                assert(request_check(request) is None);
                assert(r == Ok::<RequestEnvelope, IpcError>(request));
            }
        }
        r
    }

    /// Decides on an envelope received for this channel: it must be a
    /// request of the bound session whose proof the authenticator accepts.
    pub fn accept_envelope(&mut self, envelope: IpcEnvelope, now_ms: u64) -> (r: Result<
        RequestEnvelope,
        IpcError,
    >)
        requires
            old(self).wf(),
        ensures
            final(self).wf(),
            final(self).bound_session_id() == old(self).bound_session_id(),
            match envelope {
                IpcEnvelope::Request(request) => if request.session_id@
                    != old(self).bound_session_id() {
                    &&& r == Err::<RequestEnvelope, IpcError>(IpcError::SessionMismatch)
                    &&& !final(self).is_open_spec()
                    &&& final(self).audit() == closing_log(
                        old(self).is_open_spec(),
                        ipc_push_bounded(
                            old(self).audit(),
                            request_event(
                                IpcAuditEventType::FrameRejected,
                                now_ms,
                                request,
                                Some(IpcAuditReason::SessionMismatch),
                            ),
                        ),
                    )
                } else {
                    match request_check(request) {
                        Some(e) => {
                            &&& r == Err::<RequestEnvelope, IpcError>(e)
                            &&& final(self).is_open_spec() == old(self).is_open_spec()
                            &&& final(self).audit() == old(self).audit()
                        },
                        None => exists|verdict: Result<(), AuthError>|
                            #[trigger] conclusion_step(
                                old(self).is_open_spec(),
                                old(self).audit(),
                                request,
                                verdict,
                                now_ms,
                                r,
                                final(self).is_open_spec(),
                                final(self).audit(),
                            ),
                    }
                },
                _ => {
                    &&& r == Err::<RequestEnvelope, IpcError>(IpcError::UnexpectedMessageKind)
                    &&& !final(self).is_open_spec()
                    &&& final(self).audit() == closing_log(
                        old(self).is_open_spec(),
                        old(self).audit(),
                    )
                },
            },
            ({
                let request = envelope->Request_0;
                envelope is Request && request.session_id@ == old(self).bound_session_id()
                    && request_check(request) is None && old(self).spec_auth().models_verdict()
                    ==> conclusion_step(
                old(self).is_open_spec(),
                old(self).audit(),
                request,
                old(self).spec_auth().spec_verdict(
                    old(self).spec_session(),
                    request.protocol_version,
                    request.correlation_id@,
                    request.sequence,
                    material_spec(IpcEnvelope::Request(request)),
                    request.proof@,
                    now_ms,
                ),
                now_ms,
                r,
                final(self).is_open_spec(),
                final(self).audit(),
            )
            }),
            final(self).spec_session() == old(self).spec_session(),
            old(self).spec_auth().models_verdict() ==> final(self).spec_auth().models_verdict(),
    {
        let request = match envelope {
            IpcEnvelope::Request(request) => request,
            _ => {
                let _ = self.connection.shutdown();
                return Err(IpcError::UnexpectedMessageKind);
            },
        };
        let bound = self.session.session_id();
        if !bytes_eq(&request.session_id, bound.as_bytes()) {
            self.record_auth_rejection(&request, IpcAuditReason::SessionMismatch, now_ms);
            let _ = self.connection.shutdown();
            return Err(IpcError::SessionMismatch);
        }
        let wrapped = IpcEnvelope::Request(request);
        let material = match canonical_message_material(&wrapped) {
            Ok(material) => material,
            Err(e) => {
                return Err(e);
            },
        };
        let request = match wrapped {
            IpcEnvelope::Request(request) => request,
            _ => {
                return Err(IpcError::UnexpectedMessageKind);
            },
        };
        let verdict = self.auth.verify_session_message(
            &self.session,
            request.protocol_version,
            request.correlation_id.as_str(),
            request.sequence,
            material.as_slice(),
            request.proof.as_slice(),
            now_ms,
        );
        let ghost v = verdict;
        let ghost open = self.is_open_spec();
        let ghost log = self.audit();
        let ghost req = request;
        assert(open == old(self).is_open_spec());
        assert(log == old(self).audit());
        assert(envelope == IpcEnvelope::Request(req));
        let r = self.conclude_request(request, verdict, now_ms);
        assert(conclusion_step(open, log, req, v, now_ms, r, self.is_open_spec(), self.audit()));
        r
    }

    /// Applies the authenticator's verdict on a request of the bound session.
    pub fn conclude_request(
        &mut self,
        request: RequestEnvelope,
        verdict: Result<(), AuthError>,
        now_ms: u64,
    ) -> (r: Result<RequestEnvelope, IpcError>)
        requires
            old(self).wf(),
        ensures
            final(self).wf(),
            final(self).bound_session_id() == old(self).bound_session_id(),
            conclusion_step(
                old(self).is_open_spec(),
                old(self).audit(),
                request,
                verdict,
                now_ms,
                r,
                final(self).is_open_spec(),
                final(self).audit(),
            ),
            final(self).spec_auth() == old(self).spec_auth(),
            final(self).spec_session() == old(self).spec_session(),
    {
        match verdict {
            Err(error) => {
                self.record_auth_rejection(&request, IpcAuditReason::AuthenticationRejected, now_ms);
                let _ = self.connection.shutdown();
                Err(IpcError::Authentication(error))
            },
            Ok(()) => {
                let correlation_id = request.correlation_id.clone();
                self.connection.record(
                    IpcAuditEvent {
                        event_type: IpcAuditEventType::RequestAccepted,
                        timestamp_ms: now_ms,
                        protocol_version: request.protocol_version,
                        correlation_id: Some(correlation_id),
                        session_id: Some(request.session_id),
                        reason: None,
                    },
                );
                Ok(request)
            },
        }
    }

    /// Answers a request of the bound session.
    pub fn send_response(
        &mut self,
        request: &RequestEnvelope,
        status: ResponseStatus,
        error_code: Option<String>,
        payload: Vec<u8>,
    ) -> (r: Result<(), IpcError>)
        requires
            old(self).wf(),
        ensures
            final(self).wf(),
            final(self).bound_session_id() == old(self).bound_session_id(),
            final(self).is_open_spec() == old(self).is_open_spec(),
            final(self).audit() == old(self).audit(),
            request.session_id@ != old(self).bound_session_id() ==> r == Err::<(), IpcError>(
                IpcError::SessionMismatch,
            ),
            request.session_id@ == old(self).bound_session_id() && payload@.len()
                > IPC_MAX_PAYLOAD_SIZE ==> r == Err::<(), IpcError>(IpcError::OversizedFrame),
            request.session_id@ == old(self).bound_session_id() && payload@.len()
                <= IPC_MAX_PAYLOAD_SIZE ==> {
                if error_code matches Some(c) && !valid_text(c@, IPC_MAX_ERROR_CODE_LEN as nat) {
                    r == Err::<(), IpcError>(IpcError::InvalidEnvelope("text"))
                } else if !old(self).is_open_spec() {
                    r == Err::<(), IpcError>(IpcError::Closed)
                } else {
                    envelope_check(
                        IpcEnvelope::Response(response_for(*request, status, error_code, payload)),
                    ) matches Some(e) ==> r == Err::<(), IpcError>(e)
                }
            },
            final(self).spec_codec() == old(self).spec_codec(),
            old(self).models_sent() ==> final(self).models_sent() && records_send(
                old(self).sent_frames(),
                final(self).sent_frames(),
                old(self).spec_codec(),
                |e: IpcEnvelope|
                    e == IpcEnvelope::Response(response_for(*request, status, error_code, payload)),
                r is Ok,
            ),
    {
        let bound = self.session.session_id();
        if !bytes_eq(&request.session_id, bound.as_bytes()) {
            return Err(IpcError::SessionMismatch);
        }
        if payload.len() > IPC_MAX_PAYLOAD_SIZE {
            return Err(IpcError::OversizedFrame);
        }
        match &error_code {
            Some(code) => {
                if !is_valid_text(code.as_str(), IPC_MAX_ERROR_CODE_LEN) {
                    return Err(IpcError::InvalidEnvelope("text"));
                }
            },
            None => {},
        }
        let response = ResponseEnvelope {
            protocol_version: IPC_PROTOCOL_VERSION,
            correlation_id: request.correlation_id.clone(),
            session_id: request.session_id,
            sequence: request.sequence,
            status,
            error_code,
            payload,
            proof: None,
        };
        assert(response.correlation_id@ == request.correlation_id@);
        let envelope = IpcEnvelope::Response(response);
        proof {
            assert(envelope == IpcEnvelope::Response(
                response_for(*request, status, error_code, payload),
            ));
        }
        self.connection.send(&envelope)
    }

    /// Sends an event of the bound session.
    pub fn send_event(
        &mut self,
        sequence: u64,
        event_id: String,
        event_type: String,
        payload: Vec<u8>,
    ) -> (r: Result<(), IpcError>)
        requires
            old(self).wf(),
        ensures
            final(self).wf(),
            final(self).bound_session_id() == old(self).bound_session_id(),
            final(self).is_open_spec() == old(self).is_open_spec(),
            final(self).audit() == old(self).audit(),
            sequence == 0 ==> r == Err::<(), IpcError>(IpcError::InvalidEnvelope("sequence")),
            sequence != 0 && !old(self).is_open_spec() ==> r == Err::<(), IpcError>(
                IpcError::Closed,
            ),
            sequence != 0 && old(self).is_open_spec() && (!valid_text(
                event_id@,
                IPC_MAX_EVENT_ID_LEN as nat,
            ) || !valid_text(event_type@, IPC_MAX_EVENT_TYPE_LEN as nat)) ==> r == Err::<
                (),
                IpcError,
            >(IpcError::InvalidEnvelope("text")),
            sequence != 0 && old(self).is_open_spec() && valid_text(
                event_id@,
                IPC_MAX_EVENT_ID_LEN as nat,
            ) && valid_text(event_type@, IPC_MAX_EVENT_TYPE_LEN as nat) && payload@.len()
                > IPC_MAX_PAYLOAD_SIZE ==> r == Err::<(), IpcError>(IpcError::OversizedFrame),
            final(self).spec_codec() == old(self).spec_codec(),
            old(self).models_sent() ==> final(self).models_sent() && records_send(
                old(self).sent_frames(),
                final(self).sent_frames(),
                old(self).spec_codec(),
                |e: IpcEnvelope|
                    e is Event && e->Event_0 == event_of(
                        e->Event_0.session_id,
                        sequence,
                        event_id,
                        event_type,
                        payload,
                    ) && e->Event_0.session_id@ == old(self).bound_session_id(),
                r is Ok,
            ),
    {
        if sequence == 0 {
            return Err(IpcError::InvalidEnvelope("sequence"));
        }
        let bound = self.session.session_id();
        let session_id: [u8; 16] = *bound.as_bytes();
        let envelope = IpcEnvelope::Event(
            EventEnvelope {
                protocol_version: IPC_PROTOCOL_VERSION,
                event_id,
                session_id,
                sequence,
                event_type,
                payload,
                proof: None,
            },
        );
        let r = self.connection.send(&envelope);
        proof {
            let wide = |e: IpcEnvelope|
                e is Event && e->Event_0 == event_of(
                    e->Event_0.session_id,
                    sequence,
                    event_id,
                    event_type,
                    payload,
                ) && e->Event_0.session_id@ == old(self).bound_session_id();
            if old(self).models_sent() {
                lemma_records_send_widen(
                    old(self).sent_frames(),
                    self.sent_frames(),
                    self.spec_codec(),
                    |e: IpcEnvelope| e == envelope,
                    wide,
                    r is Ok,
                );
            }
        }
        r
    }

    pub fn shutdown(&mut self) -> (r: Result<(), IpcError>)
        requires
            old(self).wf(),
        ensures
            final(self).wf(),
            final(self).bound_session_id() == old(self).bound_session_id(),
            !final(self).is_open_spec(),
            !old(self).is_open_spec() ==> r is Ok && final(self).audit() == old(self).audit(),
            final(self).audit() == closing_log(old(self).is_open_spec(), old(self).audit()),
    {
        self.connection.shutdown()
    }

    /// Drains the audit log, oldest event first.
    pub fn take_audit_events(&mut self) -> (r: Vec<IpcAuditEvent>)
        requires
            old(self).wf(),
        ensures
            final(self).wf(),
            final(self).bound_session_id() == old(self).bound_session_id(),
            r@.map_values(|e: IpcAuditEvent| e@) == old(self).audit(),
            final(self).audit() == Seq::<IpcAuditView>::empty(),
            final(self).is_open_spec() == old(self).is_open_spec(),
    {
        self.connection.take_audit_events()
    }

    fn record_auth_rejection(&mut self, request: &RequestEnvelope, reason: IpcAuditReason, now_ms: u64)
        requires
            old(self).wf(),
        ensures
            final(self).wf(),
            final(self).bound_session_id() == old(self).bound_session_id(),
            final(self).is_open_spec() == old(self).is_open_spec(),
            final(self).audit() == ipc_push_bounded(
                old(self).audit(),
                request_event(IpcAuditEventType::FrameRejected, now_ms, *request, Some(reason)),
            ),
            final(self).auth == old(self).auth,
            final(self).session == old(self).session,
    {
        let correlation_id = request.correlation_id.clone();
        self.connection.record(
            IpcAuditEvent {
                event_type: IpcAuditEventType::FrameRejected,
                timestamp_ms: now_ms,
                protocol_version: request.protocol_version,
                correlation_id: Some(correlation_id),
                session_id: Some(request.session_id),
                reason: Some(reason),
            },
        );
    }
}


/// A request that waits for its response.
struct PendingEntry {
    correlation_id: String,
    session_id: [u8; 16],
    sequence: u64,
}

spec fn pending_key() -> spec_fn(PendingEntry) -> Seq<char> {
    |e: PendingEntry| e.correlation_id@
}

spec fn pending_value() -> spec_fn(PendingEntry) -> (Seq<u8>, u64) {
    |e: PendingEntry| (e.session_id@, e.sequence)
}

/// The pending map after registering a request, and the answer.
pub open spec fn pending_register(
    pending: Map<Seq<char>, (Seq<u8>, u64)>,
    request: RequestEnvelope,
) -> (Result<(), IpcError>, Map<Seq<char>, (Seq<u8>, u64)>) {
    match request_check(request) {
        Some(e) => (Err(e), pending),
        None => if pending.contains_key(request.correlation_id@) {
            (Err(IpcError::DuplicateCorrelation), pending)
        } else {
            (
                Ok(()),
                pending.insert(request.correlation_id@, (request.session_id@, request.sequence)),
            )
        },
    }
}

/// The pending map after a response arrives, and the answer. A response
/// from another session leaves the request waiting, so that the right
/// response can still settle it; a response from the request's session
/// settles it, whether or not its sequence matches.
pub open spec fn pending_accept(
    pending: Map<Seq<char>, (Seq<u8>, u64)>,
    response: ResponseEnvelope,
) -> (Result<(), IpcError>, Map<Seq<char>, (Seq<u8>, u64)>) {
    match response_check(response) {
        Some(e) => (Err(e), pending),
        None => if !pending.contains_key(response.correlation_id@) {
            (Err(IpcError::UnknownCorrelation), pending)
        } else {
            let (session_id, sequence) = pending[response.correlation_id@];
            let rest = pending.remove(response.correlation_id@);
            if session_id != response.session_id@ {
                (Err(IpcError::SessionMismatch), pending)
            } else if sequence != response.sequence {
                (Err(IpcError::ResponseSequenceMismatch), rest)
            } else {
                (Ok(()), rest)
            }
        },
    }
}

/// Requests sent and not yet answered, keyed by correlation id.
pub struct PendingRequests {
    pending: Vec<PendingEntry>,
}

impl PendingRequests {
    pub closed spec fn view(&self) -> Map<Seq<char>, (Seq<u8>, u64)> {
        keyed_map(self.pending@, pending_key(), pending_value())
    }

    pub closed spec fn wf(&self) -> bool {
        keys_unique(self.pending@, pending_key())
    }

    pub fn new() -> (r: Self)
        ensures
            r.wf(),
            r.view() == Map::<Seq<char>, (Seq<u8>, u64)>::empty(),
    {
        let r = PendingRequests { pending: Vec::new() };
        assert(r.view() =~= Map::<Seq<char>, (Seq<u8>, u64)>::empty());
        r
    }

    fn position(&self, correlation_id: &str) -> (r: Option<usize>)
        requires
            self.wf(),
        ensures
            r is None <==> !self.view().contains_key(correlation_id@),
            r matches Some(i) ==> i < self.pending@.len() && self.pending@[i as int].correlation_id@
                == correlation_id@,
    {
        proof {
            lemma_keyed_dom(self.pending@, pending_key(), pending_value(), correlation_id@);
        }
        let mut i: usize = 0;
        while i < self.pending.len()
            invariant
                i <= self.pending@.len(),
                forall|j: int|
                    0 <= j < i ==> (#[trigger] self.pending@[j]).correlation_id@ != correlation_id@,
            decreases self.pending@.len() - i,
        {
            if str_eq(self.pending[i].correlation_id.as_str(), correlation_id) {
                proof {
                    lemma_keyed_dom(self.pending@, pending_key(), pending_value(), correlation_id@);
                    assert(pending_key()(self.pending@[i as int]) == correlation_id@);
                }
                return Some(i);
            }
            i += 1;
        }
        None
    }

    /// Registers a request; a correlation id can wait for one response only.
    pub fn register(&mut self, request: &RequestEnvelope) -> (r: Result<(), IpcError>)
        requires
            old(self).wf(),
        ensures
            final(self).wf(),
            r == pending_register(old(self).view(), *request).0,
            final(self).view() == pending_register(old(self).view(), *request).1,
            final(self).view().dom().finite(),
            r is Ok ==> final(self).view().len() == old(self).view().len() + 1,
            r is Err ==> final(self).view().len() == old(self).view().len(),
    {
        proof {
            lemma_keyed_len(self.pending@, pending_key(), pending_value());
        }
        match validate_request(request) {
            Ok(()) => {},
            Err(e) => {
                return Err(e);
            },
        }
        if self.position(request.correlation_id.as_str()).is_some() {
            return Err(IpcError::DuplicateCorrelation);
        }
        let entry = PendingEntry {
            correlation_id: request.correlation_id.clone(),
            session_id: request.session_id,
            sequence: request.sequence,
        };
        proof {
            lemma_keyed_push(self.pending@, pending_key(), pending_value(), entry);
        }
        self.pending.push(entry);
        proof {
            lemma_keyed_len(self.pending@, pending_key(), pending_value());
        }
        Ok(())
    }

    /// Settles the request a response answers. The response must come from
    /// the request's session and carry its sequence; one from another session
    /// is refused and the request keeps waiting, while one from the right
    /// session settles the request even where its sequence is wrong.
    pub fn accept_response(&mut self, response: &ResponseEnvelope) -> (r: Result<(), IpcError>)
        requires
            old(self).wf(),
        ensures
            final(self).wf(),
            r == pending_accept(old(self).view(), *response).0,
            final(self).view() == pending_accept(old(self).view(), *response).1,
            final(self).view().dom().finite(),
            r is Ok ==> final(self).view().len() + 1 == old(self).view().len(),
    {
        proof {
            lemma_keyed_len(self.pending@, pending_key(), pending_value());
        }
        match validate_response(response) {
            Ok(()) => {},
            Err(e) => {
                return Err(e);
            },
        }
        let i = match self.position(response.correlation_id.as_str()) {
            Some(i) => i,
            None => {
                return Err(IpcError::UnknownCorrelation);
            },
        };
        proof {
            lemma_keyed_at(self.pending@, pending_key(), pending_value(), i as int);
            lemma_keyed_remove(self.pending@, pending_key(), pending_value(), i as int);
        }
        if !bytes_eq(&self.pending[i].session_id, &response.session_id) {
            return Err(IpcError::SessionMismatch);
        }
        let entry = self.pending.remove(i);
        proof {
            lemma_keyed_len(self.pending@, pending_key(), pending_value());
        }
        if entry.sequence != response.sequence {
            return Err(IpcError::ResponseSequenceMismatch);
        }
        Ok(())
    }

    pub fn len(&self) -> (r: usize)
        requires
            self.wf(),
        ensures
            r == self.view().len(),
    {
        proof {
            lemma_keyed_len(self.pending@, pending_key(), pending_value());
        }
        self.pending.len()
    }
}

impl Default for PendingRequests {
    fn default() -> (r: Self)
        ensures
            r.wf(),
            r.view() == Map::<Seq<char>, (Seq<u8>, u64)>::empty(),
    {
        PendingRequests::new()
    }
}

/// A request must carry a full-length proof: one whose other fields pass is
/// refused for its proof when the proof has any other length.
pub proof fn lemma_request_proof_is_full_length(m: RequestEnvelope)
    requires
        m.proof@.len() != AUTH_PROOF_LEN,
    ensures
        request_check(m) is Some,
        m.protocol_version == IPC_PROTOCOL_VERSION && valid_text(
            m.correlation_id@,
            IPC_MAX_CORRELATION_ID_LEN as nat,
        ) && valid_text(m.method@, IPC_MAX_METHOD_LEN as nat) && m.payload@.len()
            <= IPC_MAX_PAYLOAD_SIZE && m.sequence != 0 ==> request_check(m) == Some(
            IpcError::InvalidEnvelope("proof"),
        ),
{
}

/// A response's status and error code go together: a success carries no
/// error code and a failure carries one, and a response where they disagree
/// is refused.
pub proof fn lemma_status_and_error_code_pair(m: ResponseEnvelope)
    requires
        (m.status == ResponseStatus::Success) != (m.error_code is None),
    ensures
        response_check(m) is Some,
{
}

/// An optional proof on a response or an event is either absent or a full
/// 32-byte proof: one whose other fields pass is accepted exactly when its
/// proof is absent or 32 bytes long, and refused for its proof otherwise.
pub proof fn lemma_optional_proofs_are_full_length(r: ResponseEnvelope, e: EventEnvelope)
    ensures
        response_check(r) is None && r.proof is Some ==> r.proof->Some_0@.len() == AUTH_PROOF_LEN,
        event_check(e) is None && e.proof is Some ==> e.proof->Some_0@.len() == AUTH_PROOF_LEN,
        e.protocol_version == IPC_PROTOCOL_VERSION && valid_text(
            e.event_id@,
            IPC_MAX_EVENT_ID_LEN as nat,
        ) && valid_text(e.event_type@, IPC_MAX_EVENT_TYPE_LEN as nat) && e.payload@.len()
            <= IPC_MAX_PAYLOAD_SIZE && e.sequence != 0 ==> (event_check(e) is None <==> (
        e.proof is None || e.proof->Some_0@.len() == AUTH_PROOF_LEN)),
        e.protocol_version == IPC_PROTOCOL_VERSION && valid_text(
            e.event_id@,
            IPC_MAX_EVENT_ID_LEN as nat,
        ) && valid_text(e.event_type@, IPC_MAX_EVENT_TYPE_LEN as nat) && e.payload@.len()
            <= IPC_MAX_PAYLOAD_SIZE && e.sequence != 0 && e.proof is Some
            && e.proof->Some_0@.len() != AUTH_PROOF_LEN ==> event_check(e) == Some(
            IpcError::InvalidEnvelope("proof"),
        ),
        r.protocol_version == IPC_PROTOCOL_VERSION && valid_text(
            r.correlation_id@,
            IPC_MAX_CORRELATION_ID_LEN as nat,
        ) && r.payload@.len() <= IPC_MAX_PAYLOAD_SIZE && r.sequence != 0 && (r.error_code matches Some(
            c,
        ) ==> valid_text(c@, IPC_MAX_ERROR_CODE_LEN as nat)) && (r.status == ResponseStatus::Success)
            == (r.error_code is None) ==> (response_check(r) is None <==> (r.proof is None
            || r.proof->Some_0@.len() == AUTH_PROOF_LEN)),
{
}

/// A pending request is answered at most once: once a response from its
/// session has settled it, the same response is refused as unknown.
pub proof fn lemma_answered_at_most_once(
    pending: Map<Seq<char>, (Seq<u8>, u64)>,
    response: ResponseEnvelope,
)
    requires
        response_check(response) is None,
        pending.contains_key(response.correlation_id@),
        pending[response.correlation_id@].0 == response.session_id@,
    ensures
        pending_accept(pending_accept(pending, response).1, response).0 == Err::<(), IpcError>(
            IpcError::UnknownCorrelation,
        ),
        pending_accept(pending_accept(pending, response).1, response).1 == pending_accept(
            pending,
            response,
        ).1,
{
}

/// Registering a request and then accepting the response that matches it
/// succeeds and leaves the pending map as it was.
pub proof fn lemma_register_then_answer(
    pending: Map<Seq<char>, (Seq<u8>, u64)>,
    request: RequestEnvelope,
    response: ResponseEnvelope,
)
    requires
        pending_register(pending, request).0 is Ok,
        response_check(response) is None,
        response.correlation_id@ == request.correlation_id@,
        response.session_id@ == request.session_id@,
        response.sequence == request.sequence,
    ensures
        pending_accept(pending_register(pending, request).1, response).0 is Ok,
        pending_accept(pending_register(pending, request).1, response).1 == pending,
{
    let after = pending_register(pending, request).1;
    assert(after.remove(request.correlation_id@) =~= pending);
}

/// A response from another session leaves the request waiting: the pending
/// map is unchanged, and the right response then settles the request as if
/// the stray one had never come.
pub proof fn lemma_stray_session_keeps_request(
    pending: Map<Seq<char>, (Seq<u8>, u64)>,
    stray: ResponseEnvelope,
    response: ResponseEnvelope,
)
    requires
        response_check(stray) is None,
        pending.contains_key(stray.correlation_id@),
        pending[stray.correlation_id@].0 != stray.session_id@,
    ensures
        pending_accept(pending, stray).0 == Err::<(), IpcError>(IpcError::SessionMismatch),
        pending_accept(pending, stray).1 == pending,
        pending_accept(pending_accept(pending, stray).1, response) == pending_accept(
            pending,
            response,
        ),
{
}

#[verifier::external_type_specification]
#[verifier::external_body]
#[verifier::reject_recursive_types(T)]
pub struct ExChannelSender<T>(std::sync::mpsc::Sender<T>);

#[verifier::external_type_specification]
#[verifier::external_body]
#[verifier::reject_recursive_types(T)]
pub struct ExChannelReceiver<T>(std::sync::mpsc::Receiver<T>);

/// What waiting on a channel brought.
enum ChannelReceive {
    Frame(Vec<u8>),
    TimedOut,
    Disconnected,
}

/// `std::sync::mpsc::channel`: a fresh connected sender and receiver.
#[verifier::external_body]
fn open_channel() -> (r: (std::sync::mpsc::Sender<Vec<u8>>, std::sync::mpsc::Receiver<Vec<u8>>)) {
    std::sync::mpsc::channel()
}

/// `Sender::send`: whether the frame was handed to a live receiver. Whether
/// the receiver is still alive is the channel's own run-time state, so
/// nothing is stated of the answer.
#[verifier::external_body]
fn channel_send(tx: &std::sync::mpsc::Sender<Vec<u8>>, frame: Vec<u8>) -> (delivered: bool) {
    tx.send(frame).is_ok()
}

/// `Receiver::recv_timeout`: a frame, the timeout running out, or the sender
/// being gone, told apart by variant. Which one comes depends on the other
/// end and the clock, so nothing is stated of it.
#[verifier::external_body]
fn channel_recv_timeout(rx: &std::sync::mpsc::Receiver<Vec<u8>>, timeout: Duration) -> (r:
    ChannelReceive) {
    match rx.recv_timeout(timeout) {
        Ok(frame) => ChannelReceive::Frame(frame),
        Err(std::sync::mpsc::RecvTimeoutError::Timeout) => ChannelReceive::TimedOut,
        Err(std::sync::mpsc::RecvTimeoutError::Disconnected) => ChannelReceive::Disconnected,
    }
}

/// An in-process transport: two cross-wired channels.
pub struct MemoryTransport {
    tx: std::sync::mpsc::Sender<Vec<u8>>,
    rx: std::sync::mpsc::Receiver<Vec<u8>>,
    closed: bool,
    sent: Ghost<Seq<Seq<u8>>>,
}

impl MemoryTransport {
    pub closed spec fn is_closed(&self) -> bool {
        self.closed
    }

    /// Two connected ends: what one sends, the other receives.
    pub fn pair() -> (r: (Self, Self))
        ensures
            !r.0.is_closed(),
            !r.1.is_closed(),
            r.0.sent_frames() == Seq::<Seq<u8>>::empty(),
            r.1.sent_frames() == Seq::<Seq<u8>>::empty(),
    {
        let (left_tx, left_rx) = open_channel();
        let (right_tx, right_rx) = open_channel();
        (
            MemoryTransport { tx: left_tx, rx: right_rx, closed: false, sent: Ghost(Seq::empty()) },
            MemoryTransport { tx: right_tx, rx: left_rx, closed: false, sent: Ghost(Seq::empty()) },
        )
    }
}

impl IpcTransport for MemoryTransport {
    open spec fn models_sent(&self) -> bool {
        true
    }

    closed spec fn sent_frames(&self) -> Seq<Seq<u8>> {
        self.sent@
    }

    open spec fn shutdown_succeeds(&self) -> bool {
        true
    }

    fn send_frame(&mut self, frame: &[u8]) -> (r: Result<(), IpcError>)
        ensures
            final(self).is_closed() == old(self).is_closed(),
            old(self).is_closed() ==> r == Err::<(), IpcError>(IpcError::Closed),
            r is Ok || r == Err::<(), IpcError>(IpcError::Closed),
    {
        if self.closed {
            return Err(IpcError::Closed);
        }
        let mut owned: Vec<u8> = Vec::new();
        push_raw(&mut owned, frame);
        if channel_send(&self.tx, owned) {
            self.sent = Ghost(self.sent@.push(frame@));
            Ok(())
        } else {
            Err(IpcError::Closed)
        }
    }

    fn recv_frame(&mut self, timeout: Duration) -> (r: Result<Vec<u8>, IpcError>)
        ensures
            final(self).is_closed() == old(self).is_closed(),
            old(self).is_closed() ==> r == Err::<Vec<u8>, IpcError>(IpcError::Closed),
            r is Ok || r == Err::<Vec<u8>, IpcError>(IpcError::Timeout) || r == Err::<
                Vec<u8>,
                IpcError,
            >(IpcError::Closed),
    {
        if self.closed {
            return Err(IpcError::Closed);
        }
        match channel_recv_timeout(&self.rx, timeout) {
            ChannelReceive::Frame(frame) => Ok(frame),
            ChannelReceive::TimedOut => Err(IpcError::Timeout),
            ChannelReceive::Disconnected => Err(IpcError::Closed),
        }
    }

    fn shutdown(&mut self) -> (r: Result<(), IpcError>)
        ensures
            final(self).is_closed(),
            r is Ok,
    {
        self.closed = true;
        Ok(())
    }
}

} // verus!
