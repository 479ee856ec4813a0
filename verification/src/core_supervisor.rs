//! The decisions of the host's supervision of the Core process: the
//! handshake's checks, the heartbeat and event bookkeeping of a live link,
//! the routing of the Core's requests and events, the reconnect backoff,
//! and the shape of commands typed into the UI. Launching the process,
//! waiting, and talking JSON to the UI are left to the embedding application.

use std::time::Duration;

use vstd::prelude::*;

use crate::auth::{
    handle_registered, revoked_view, session_active, AuthChallenge, AuthCrypto, AuthenticatedSession,
    AuthenticationProvider, AuthenticationServer, ChallengeId, ChallengeResponse, LaunchId,
    AUTH_PROTOCOL_VERSION,
};
use crate::ipc::{
    canonical_message_material, check_decoded, decode_frame, decoded_result, encode_frame, encoded_frame, envelope_check,
    frame_body, frame_of, kind_spec, records_send, IpcMessageKind,
    request_check, unframe_body, unframe_result, frame_result, EventEnvelope, IpcCodec,
    IpcEnvelope, IpcError, IpcTransport, RequestEnvelope, ResponseEnvelope, ResponseStatus,
    IPC_MAX_CORRELATION_ID_LEN, IPC_MAX_ERROR_CODE_LEN, IPC_MAX_EVENT_ID_LEN, IPC_MAX_EVENT_TYPE_LEN, IPC_MAX_PAYLOAD_SIZE,
    IPC_PROTOCOL_VERSION,
};
use crate::auth::valid_text;
use crate::security::{SecurityDecision, SecurityGateway};
use crate::text::{bytes_eq, str_eq, trim_seq, trimmed, utf8_bytes};

verus! {

pub const CORE_HEARTBEAT_METHOD: &'static str = "core.health";
pub const CORE_CAPABILITY_METHOD: &'static str = "core.capability.request";
pub const CORE_RECONNECT_INITIAL_SECS: u64 = 1;
pub const CORE_RECONNECT_MAX_SECS: u64 = 30;
pub const CORE_COMMAND_QUEUE_SIZE: usize = 64;
pub const CORE_TEXT_MAX_LEN: usize = 8192;
pub const CORE_EVENT_NAME: &'static str = "host://core/event";
pub const CORE_HEARTBEAT_TIMEOUT_SECS: u64 = 8;
/// Consecutive silent polls after which the Core is considered gone.
pub const CORE_MAX_MISSED_HEARTBEATS: u32 = 4;

/// `heartbeat`, the payload of a heartbeat request.
pub open spec fn heartbeat_payload() -> Seq<u8> {
    seq![104u8, 101, 97, 114, 116, 98, 101, 97, 116]
}

/// The payload of the host's answer to a heartbeat: `alive`.
pub open spec fn alive_payload() -> Seq<u8> {
    seq![97u8, 108, 105, 118, 101]
}

#[derive(Debug, Clone, Copy, PartialEq, Eq, Structural)]
pub enum CoreSupervisorError {
    UnsupportedPlatform,
    ProcessLaunch,
    Bootstrap,
    Handshake,
    Authentication,
    Protocol,
    Transport,
    HeartbeatTimeout,
    ChildExited,
}

#[verifier::external_type_specification]
#[verifier::external_body]
pub struct ExPathBuf(std::path::PathBuf);

/// Where the Core's interpreter, script and memory database live, and how
/// long the host waits for a heartbeat.
#[derive(Debug)]
pub struct CoreLaunchConfig {
    pub python_executable: std::path::PathBuf,
    pub script_path: std::path::PathBuf,
    pub memory_db_path: std::path::PathBuf,
    pub workspace_root: Option<std::path::PathBuf>,
    pub heartbeat_timeout: Duration,
}

/// A text command typed into the UI, on its way to the Core.
#[derive(Debug)]
pub struct HostCommand {
    pub correlation_id: String,
    pub text: String,
}

pub open spec fn digit_char(d: u8) -> char {
    (d + 48) as char
}

/// The decimal digits of `n`, most significant first.
pub open spec fn decimal_digits(n: nat) -> Seq<char>
    decreases n,
{
    if n < 10 {
        seq![digit_char(n as u8)]
    } else {
        decimal_digits(n / 10).push(digit_char((n % 10) as u8))
    }
}

fn push_decimal(out: &mut String, n: u64)
    ensures
        final(out)@ == old(out)@ + decimal_digits(n as nat),
    decreases n,
{
    if n >= 10 {
        push_decimal(out, n / 10);
    }
    let d: u8 = (n % 10) as u8;
    out.push((d + 48) as char);
    assert(final(out)@ =~= old(out)@ + decimal_digits(n as nat));
}

/// The correlation id of the `n`-th UI command: `ui-` and `n` in decimal.
pub open spec fn command_correlation_spec(n: u64) -> Seq<char> {
    seq!['u', 'i', '-'] + decimal_digits(n as nat)
}

pub fn command_correlation_id(n: u64) -> (r: String)
    ensures
        r@ == command_correlation_spec(n),
{
    let mut out = String::new();
    out.push('u');
    out.push('i');
    out.push('-');
    push_decimal(&mut out, n);
    assert(out@ =~= command_correlation_spec(n));
    out
}

/// A UI text is sent trimmed; it may be neither blank nor longer than
/// `CORE_TEXT_MAX_LEN` bytes.
pub fn prepare_text_command(text: &str) -> (r: Result<String, String>)
    ensures
        trim_seq(text@).len() == 0 || utf8_bytes(trim_seq(text@)).len() > CORE_TEXT_MAX_LEN ==> (
        r matches Err(m) && m@ == "command is empty or too large"@),
        trim_seq(text@).len() > 0 && utf8_bytes(trim_seq(text@)).len() <= CORE_TEXT_MAX_LEN ==> (
        r matches Ok(t) && t@ == trim_seq(text@)),
{
    let t = trimmed(text);
    if t.as_str().is_empty() || t.as_str().as_bytes().len() > CORE_TEXT_MAX_LEN {
        return Err("command is empty or too large".to_owned());
    }
    Ok(t)
}

/// The command that carries a prepared text under the `n`-th correlation id.
pub fn host_command(n: u64, text: String) -> (r: HostCommand)
    ensures
        r.correlation_id@ == command_correlation_spec(n),
        r.text@ == text@,
{
    HostCommand { correlation_id: command_correlation_id(n), text }
}

/// The delay before the next launch attempt, doubling after each failure up
/// to `CORE_RECONNECT_MAX_SECS` and starting over after a clean run.
pub struct ReconnectBackoff {
    secs: u64,
}

pub open spec fn backoff_next(secs: u64) -> u64 {
    if 2 * secs >= CORE_RECONNECT_MAX_SECS {
        CORE_RECONNECT_MAX_SECS
    } else {
        (2 * secs) as u64
    }
}

impl ReconnectBackoff {
    pub closed spec fn secs_spec(&self) -> u64 {
        self.secs
    }

    pub closed spec fn wf(&self) -> bool {
        CORE_RECONNECT_INITIAL_SECS <= self.secs <= CORE_RECONNECT_MAX_SECS
    }

    pub fn new() -> (r: Self)
        ensures
            r.wf(),
            r.secs_spec() == CORE_RECONNECT_INITIAL_SECS,
    {
        ReconnectBackoff { secs: CORE_RECONNECT_INITIAL_SECS }
    }

    /// Accounts for the end of a connection: a clean end resets the delay.
    /// Returns how long to wait before the next attempt.
    pub fn after_connection(&mut self, clean: bool) -> (wait_secs: u64)
        requires
            old(self).wf(),
        ensures
            final(self).wf(),
            wait_secs == if clean {
                CORE_RECONNECT_INITIAL_SECS
            } else {
                old(self).secs_spec()
            },
            final(self).secs_spec() == backoff_next(wait_secs),
    {
        if clean {
            self.secs = CORE_RECONNECT_INITIAL_SECS;
        }
        let wait = self.secs;
        self.secs = if wait >= CORE_RECONNECT_MAX_SECS / 2 {
            CORE_RECONNECT_MAX_SECS
        } else {
            wait * 2
        };
        wait
    }
}

/// What the supervisor does once a connection to the Core has ended.
#[derive(Debug, Clone, Copy, PartialEq, Eq, Structural)]
pub enum SupervisorStep {
    /// A stop was requested: the supervisor ends.
    Stop,
    /// Wait this many seconds, then launch the Core again.
    Retry { wait_secs: u64 },
}

/// The supervisor's bookkeeping when a connection ends. A connection that
/// failed leaves no session usable: every session of the server is revoked
/// before anything else. Then a requested stop ends the supervision, and
/// otherwise the backoff gives the wait before the next attempt.
pub fn after_connection_ends<C: AuthCrypto>(
    auth: &mut AuthenticationServer<C>,
    backoff: &mut ReconnectBackoff,
    outcome: Result<(), CoreSupervisorError>,
    stop_requested: bool,
    now_ms: u64,
) -> (r: SupervisorStep)
    requires
        old(auth).wf(),
        old(backoff).wf(),
    ensures
        final(auth).wf(),
        final(backoff).wf(),
        final(auth).spec_launch_id() == old(auth).spec_launch_id(),
        final(auth).challenge_map() == old(auth).challenge_map(),
        outcome is Ok ==> final(auth).session_map() == old(auth).session_map(),
        outcome is Err ==> final(auth).session_map().dom() == old(auth).session_map().dom() && forall|
            k: Seq<u8>,
        |
            #[trigger] old(auth).session_map().contains_key(k) ==> final(auth).session_map()[k]
                == revoked_view(old(auth).session_map()[k]),
        stop_requested ==> r == SupervisorStep::Stop && final(backoff).secs_spec() == old(
            backoff,
        ).secs_spec(),
        !stop_requested ==> {
            let wait = if outcome is Ok {
                CORE_RECONNECT_INITIAL_SECS
            } else {
                old(backoff).secs_spec()
            };
            &&& r == SupervisorStep::Retry { wait_secs: wait }
            &&& final(backoff).secs_spec() == backoff_next(wait)
        },
{
    if outcome.is_err() {
        auth.invalidate_all_sessions(now_ms);
    }
    if stop_requested {
        return SupervisorStep::Stop;
    }
    let wait_secs = backoff.after_connection(outcome.is_ok());
    SupervisorStep::Retry { wait_secs }
}

/// The backoff never waits less than the initial delay nor more than the
/// maximum, and grows until it reaches the maximum.
pub proof fn lemma_backoff_bounded(secs: u64)
    requires
        CORE_RECONNECT_INITIAL_SECS <= secs <= CORE_RECONNECT_MAX_SECS,
    ensures
        CORE_RECONNECT_INITIAL_SECS <= backoff_next(secs) <= CORE_RECONNECT_MAX_SECS,
        secs < CORE_RECONNECT_MAX_SECS ==> secs < backoff_next(secs),
        secs == CORE_RECONNECT_MAX_SECS ==> backoff_next(secs) == secs,
{
}

/// The reconnect schedule after repeated failures from a fresh start: the
/// waits are 1, 2, 4, 8 and 16 seconds, then 30 seconds from then on.
pub proof fn lemma_reconnect_schedule()
    ensures
        backoff_next(CORE_RECONNECT_INITIAL_SECS) == 2,
        backoff_next(2) == 4,
        backoff_next(4) == 8,
        backoff_next(8) == 16,
        backoff_next(16) == CORE_RECONNECT_MAX_SECS,
        backoff_next(CORE_RECONNECT_MAX_SECS) == CORE_RECONNECT_MAX_SECS,
{
}

/// Where a Core event goes.
#[derive(Debug, Clone, Copy, PartialEq, Eq, Structural)]
pub enum CoreEventRoute {
    /// A status, response or error for the UI.
    ForwardToUi,
    /// A capability request to run on the host.
    CapabilityRequest,
}

/// Where a Core request goes, once authenticated.
#[derive(Debug, Clone, Copy, PartialEq, Eq, Structural)]
pub enum CoreRequestRoute {
    Heartbeat,
    CapabilityRequest,
}

/// What one poll of the link brought.
#[derive(Debug)]
pub enum CoreInbound {
    /// Nothing arrived in time; the link is still considered alive.
    Idle,
    Request(RequestEnvelope),
    Event(EventEnvelope),
}

pub open spec fn event_route_spec(event_type: Seq<char>) -> Result<
    CoreEventRoute,
    CoreSupervisorError,
> {
    if event_type == "core.status"@ || event_type == "core.response"@ || event_type
        == "core.error"@ {
        Ok(CoreEventRoute::ForwardToUi)
    } else if event_type == "capability.request"@ {
        Ok(CoreEventRoute::CapabilityRequest)
    } else {
        Err(CoreSupervisorError::Protocol)
    }
}

/// An incoming event of the link: it must belong to the session and come
/// after every event already accepted. Answers the route and the newest
/// accepted sequence afterwards.
pub open spec fn event_step(last: u64, session_id: Seq<u8>, event: EventEnvelope) -> (
    Result<CoreEventRoute, CoreSupervisorError>,
    u64,
) {
    if event.session_id@ != session_id {
        (Err(CoreSupervisorError::Authentication), last)
    } else if event.sequence <= last {
        (Err(CoreSupervisorError::Authentication), last)
    } else {
        (event_route_spec(event.event_type@), event.sequence)
    }
}

/// A silent poll: one more missed heartbeat, fatal at the limit.
pub open spec fn timeout_step(missed: u32) -> (Result<(), CoreSupervisorError>, u32) {
    if missed + 1 >= CORE_MAX_MISSED_HEARTBEATS {
        (Err(CoreSupervisorError::HeartbeatTimeout), (missed + 1) as u32)
    } else {
        (Ok(()), (missed + 1) as u32)
    }
}

/// The bookkeeping of one authenticated link to the Core: the sequence of
/// the host's next message, the newest event sequence accepted from the
/// Core, and the heartbeats missed in a row.
pub struct CoreLinkState {
    outgoing_sequence: u64,
    incoming_event_sequence: u64,
    missed_heartbeats: u32,
}

impl CoreLinkState {
    pub closed spec fn outgoing(&self) -> u64 {
        self.outgoing_sequence
    }

    pub closed spec fn last_event(&self) -> u64 {
        self.incoming_event_sequence
    }

    pub closed spec fn missed(&self) -> u32 {
        self.missed_heartbeats
    }

    pub closed spec fn wf(&self) -> bool {
        self.missed_heartbeats < CORE_MAX_MISSED_HEARTBEATS
    }

    pub fn new() -> (r: Self)
        ensures
            r.wf(),
            r.outgoing() == 1,
            r.last_event() == 0,
            r.missed() == 0,
    {
        CoreLinkState { outgoing_sequence: 1, incoming_event_sequence: 0, missed_heartbeats: 0 }
    }

    /// The sequence for the host's next message; the counter then advances,
    /// saturating at the top.
    pub fn next_outgoing_sequence(&mut self) -> (r: u64)
        ensures
            r == old(self).outgoing(),
            final(self).outgoing() == if r == u64::MAX {
                u64::MAX
            } else {
                (r + 1) as u64
            },
            final(self).last_event() == old(self).last_event(),
            final(self).missed() == old(self).missed(),
    {
        let r = self.outgoing_sequence;
        self.outgoing_sequence = r.saturating_add(1);
        r
    }

    /// Accepts or refuses an incoming event for the session.
    pub fn accept_event(&mut self, session: &AuthenticatedSession, event: &EventEnvelope) -> (r:
        Result<CoreEventRoute, CoreSupervisorError>)
        ensures
            r == event_step(old(self).last_event(), session.spec_session_id(), *event).0,
            final(self).last_event() == event_step(
                old(self).last_event(),
                session.spec_session_id(),
                *event,
            ).1,
            final(self).outgoing() == old(self).outgoing(),
            final(self).missed() == old(self).missed(),
    {
        let bound = session.session_id();
        if !bytes_eq(&event.session_id, bound.as_bytes()) {
            return Err(CoreSupervisorError::Authentication);
        }
        if event.sequence <= self.incoming_event_sequence {
            return Err(CoreSupervisorError::Authentication);
        }
        self.incoming_event_sequence = event.sequence;
        route_event(event.event_type.as_str())
    }

    /// Accounts for one poll of the link: a silent poll counts a missed
    /// heartbeat, a frame resets the count and is decoded, and any other
    /// transport failure ends the link.
    pub fn on_poll<C: IpcCodec>(&mut self, codec: &C, received: Result<Vec<u8>, IpcError>) -> (r:
        Result<CoreInbound, CoreSupervisorError>)
        requires
            old(self).wf(),
        ensures
            final(self).outgoing() == old(self).outgoing(),
            final(self).last_event() == old(self).last_event(),
            match received {
                Err(IpcError::Timeout) => {
                    &&& final(self).missed() == timeout_step(old(self).missed()).1
                    &&& match timeout_step(old(self).missed()).0 {
                        Err(e) => r == Err::<CoreInbound, CoreSupervisorError>(e),
                        Ok(()) => r matches Ok(CoreInbound::Idle) && final(self).wf(),
                    }
                },
                Err(_) => {
                    &&& r == Err::<CoreInbound, CoreSupervisorError>(
                        CoreSupervisorError::Transport,
                    )
                    &&& final(self).missed() == old(self).missed()
                    &&& final(self).wf()
                },
                Ok(frame) => {
                    &&& final(self).missed() == 0
                    &&& final(self).wf()
                    &&& unframe_result(frame@) is Err ==> r == Err::<
                        CoreInbound,
                        CoreSupervisorError,
                    >(CoreSupervisorError::Protocol)
                    &&& unframe_result(frame@) matches Ok(body) ==> exists|
                        decoded: Result<IpcEnvelope, IpcError>,
                    |
                        r == #[trigger] inbound_spec(decoded_result(decoded)) && (
                        codec.models_decoding() ==> decoded == codec.spec_decode(body))
                    &&& r matches Err(e) ==> e == CoreSupervisorError::Protocol
                    &&& r matches Ok(CoreInbound::Request(q)) ==> request_check(q) is None
                    &&& r matches Ok(CoreInbound::Event(ev)) ==> envelope_check(
                        IpcEnvelope::Event(ev),
                    ) is None
                    &&& !(r matches Ok(CoreInbound::Idle))
                },
            },
    {
        match received {
            Err(IpcError::Timeout) => {
                self.missed_heartbeats = self.missed_heartbeats + 1;
                if self.missed_heartbeats >= CORE_MAX_MISSED_HEARTBEATS {
                    return Err(CoreSupervisorError::HeartbeatTimeout);
                }
                Ok(CoreInbound::Idle)
            },
            Err(_) => Err(CoreSupervisorError::Transport),
            Ok(frame) => {
                self.missed_heartbeats = 0;
                let body = match unframe_body(frame.as_slice()) {
                    Ok(body) => body,
                    Err(_) => {
                        return Err(CoreSupervisorError::Protocol);
                    },
                };
                let decoded = codec.decode(body.as_slice());
                let ghost d = decoded;
                let r = inbound_from(decoded);
                assert(r == inbound_spec(decoded_result(d)));
                r
            },
        }
    }
}

/// What a poll brings for what the codec decoded from a frame's body: a
/// request or an event that the protocol accepts is passed on; a response,
/// an envelope the protocol refuses, or a decoding failure is a protocol
/// failure.
pub open spec fn inbound_spec(checked: Result<IpcEnvelope, IpcError>) -> Result<
    CoreInbound,
    CoreSupervisorError,
> {
    match checked {
        Ok(IpcEnvelope::Request(q)) => Ok(CoreInbound::Request(q)),
        Ok(IpcEnvelope::Event(ev)) => Ok(CoreInbound::Event(ev)),
        Ok(IpcEnvelope::Response(_)) => Err(CoreSupervisorError::Protocol),
        Err(_) => Err(CoreSupervisorError::Protocol),
    }
}

/// Checks what the codec decoded against the protocol and sorts it for the
/// link.
pub fn inbound_from(decoded: Result<IpcEnvelope, IpcError>) -> (r: Result<
    CoreInbound,
    CoreSupervisorError,
>)
    ensures
        r == inbound_spec(decoded_result(decoded)),
{
    match check_decoded(decoded) {
        Ok(IpcEnvelope::Request(request)) => Ok(CoreInbound::Request(request)),
        Ok(IpcEnvelope::Event(event)) => Ok(CoreInbound::Event(event)),
        Ok(IpcEnvelope::Response(_)) => Err(CoreSupervisorError::Protocol),
        Err(_) => Err(CoreSupervisorError::Protocol),
    }
}

fn route_event(event_type: &str) -> (r: Result<CoreEventRoute, CoreSupervisorError>)
    ensures
        r == event_route_spec(event_type@),
{
    if str_eq(event_type, "core.status") || str_eq(event_type, "core.response") || str_eq(
        event_type,
        "core.error",
    ) {
        Ok(CoreEventRoute::ForwardToUi)
    } else if str_eq(event_type, "capability.request") {
        Ok(CoreEventRoute::CapabilityRequest)
    } else {
        Err(CoreSupervisorError::Protocol)
    }
}

/// Whether the link goes on at the top of a round: a requested stop ends it
/// cleanly, a Core that can no longer be inspected or has exited ends it
/// with an error, and otherwise the round proceeds (`None`).
pub fn liveness_verdict(stop_requested: bool, running: Result<bool, CoreSupervisorError>) -> (r:
    Option<Result<(), CoreSupervisorError>>)
    ensures
        stop_requested ==> r == Some(Ok::<(), CoreSupervisorError>(())),
        !stop_requested ==> match running {
            Err(e) => r == Some(Err::<(), CoreSupervisorError>(e)),
            Ok(false) => r == Some(Err::<(), CoreSupervisorError>(CoreSupervisorError::ChildExited)),
            Ok(true) => r is None,
        },
{
    if stop_requested {
        return Some(Ok(()));
    }
    match running {
        Err(e) => Some(Err(e)),
        Ok(false) => Some(Err(CoreSupervisorError::ChildExited)),
        Ok(true) => None,
    }
}

/// An event accepted once is refused when it arrives again: the link's
/// event sequence only moves forward.
pub proof fn lemma_event_replay_refused(last: u64, session_id: Seq<u8>, event: EventEnvelope)
    requires
        event_step(last, session_id, event).0 is Ok,
    ensures
        event_step(last, session_id, event).1 > last,
        event_step(event_step(last, session_id, event).1, session_id, event).0 == Err::<
            CoreEventRoute,
            CoreSupervisorError,
        >(CoreSupervisorError::Authentication),
{
}

/// From a fresh count, three silent polls are tolerated and the fourth ends
/// the link.
pub proof fn lemma_fourth_silent_poll_ends_link()
    ensures
        timeout_step(0).0 is Ok,
        timeout_step(timeout_step(0).1).0 is Ok,
        timeout_step(timeout_step(timeout_step(0).1).1).0 is Ok,
        timeout_step(timeout_step(timeout_step(timeout_step(0).1).1).1).0 == Err::<
            (),
            CoreSupervisorError,
        >(CoreSupervisorError::HeartbeatTimeout),
{
}

pub open spec fn request_route_spec(request: RequestEnvelope) -> Result<
    CoreRequestRoute,
    CoreSupervisorError,
> {
    if request.method@ == CORE_HEARTBEAT_METHOD@ && request.payload@ == heartbeat_payload() {
        Ok(CoreRequestRoute::Heartbeat)
    } else if request.method@ == CORE_CAPABILITY_METHOD@ {
        Ok(CoreRequestRoute::CapabilityRequest)
    } else {
        Err(CoreSupervisorError::Protocol)
    }
}

/// Where an authenticated request goes: a heartbeat, a capability request,
/// or nowhere.
pub fn route_request(request: &RequestEnvelope) -> (r: Result<CoreRequestRoute, CoreSupervisorError>)
    ensures
        r == request_route_spec(*request),
{
    let beat: [u8; 9] = [104, 101, 97, 114, 116, 98, 101, 97, 116];
    assert(beat@ =~= heartbeat_payload());
    if str_eq(request.method.as_str(), CORE_HEARTBEAT_METHOD) && bytes_eq(
        request.payload.as_slice(),
        &beat,
    ) {
        Ok(CoreRequestRoute::Heartbeat)
    } else if str_eq(request.method.as_str(), CORE_CAPABILITY_METHOD) {
        Ok(CoreRequestRoute::CapabilityRequest)
    } else {
        Err(CoreSupervisorError::Protocol)
    }
}

/// What screening a request gives once the authenticator has spoken.
pub open spec fn screen_outcome(verdict: Result<(), crate::auth::AuthError>, request: RequestEnvelope) -> Result<
    CoreRequestRoute,
    CoreSupervisorError,
> {
    match verdict {
        Err(_) => Err(CoreSupervisorError::Authentication),
        Ok(()) => request_route_spec(request),
    }
}

/// Screens a request of the Core: it must belong to the session, be a valid
/// request, and carry a proof that the authenticator accepts over the
/// request's canonical material; then it is routed. Where the authenticator
/// models its answers, the outcome is exactly its answer, routed.
pub fn screen_request<A: AuthenticationProvider>(
    auth: &mut A,
    session: &AuthenticatedSession,
    request: &RequestEnvelope,
    now_ms: u64,
) -> (r: Result<CoreRequestRoute, CoreSupervisorError>)
    requires
        old(auth).provider_inv(),
    ensures
        final(auth).provider_inv(),
        request.session_id@ != session.spec_session_id() ==> r == Err::<
            CoreRequestRoute,
            CoreSupervisorError,
        >(CoreSupervisorError::Authentication),
        request.session_id@ == session.spec_session_id() && request_check(*request) is Some ==> r
            == Err::<CoreRequestRoute, CoreSupervisorError>(CoreSupervisorError::Protocol),
        request.session_id@ == session.spec_session_id() && request_check(*request) is None ==> exists|
            verdict: Result<(), crate::auth::AuthError>,
        | r == #[trigger] screen_outcome(verdict, *request),
        request.session_id@ == session.spec_session_id() && request_check(*request) is None
            && old(auth).models_verdict() ==> r == screen_outcome(
            old(auth).spec_verdict(
                *session,
                request.protocol_version,
                request.correlation_id@,
                request.sequence,
                crate::ipc::material_spec(IpcEnvelope::Request(*request)),
                request.proof@,
                now_ms,
            ),
            *request,
        ),
        old(auth).models_verdict() ==> final(auth).models_verdict(),
{
    let bound = session.session_id();
    if !bytes_eq(&request.session_id, bound.as_bytes()) {
        return Err(CoreSupervisorError::Authentication);
    }
    let envelope = IpcEnvelope::Request(copy_request(request));
    let material = match canonical_message_material(&envelope) {
        Ok(material) => material,
        Err(_) => {
            return Err(CoreSupervisorError::Protocol);
        },
    };
    let verdict = auth.verify_session_message(
        session,
        request.protocol_version,
        request.correlation_id.as_str(),
        request.sequence,
        material.as_slice(),
        request.proof.as_slice(),
        now_ms,
    );
    let ghost v = verdict;
    let r = match verdict {
        Err(_) => Err(CoreSupervisorError::Authentication),
        Ok(()) => route_request(request),
    };
    assert(r == screen_outcome(v, *request));
    r
}

fn copy_bytes(v: &Vec<u8>) -> (r: Vec<u8>)
    ensures
        r@ == v@,
{
    let mut out: Vec<u8> = Vec::new();
    crate::encoding::push_raw(&mut out, v.as_slice());
    out
}

/// A field-by-field copy of a request.
pub fn copy_request(request: &RequestEnvelope) -> (r: RequestEnvelope)
    ensures
        r.protocol_version == request.protocol_version,
        r.correlation_id@ == request.correlation_id@,
        r.session_id == request.session_id,
        r.sequence == request.sequence,
        r.method@ == request.method@,
        r.payload@ == request.payload@,
        r.proof@ == request.proof@,
        request_check(r) == request_check(*request),
        crate::ipc::material_spec(IpcEnvelope::Request(r)) == crate::ipc::material_spec(
            IpcEnvelope::Request(*request),
        ),
{
    RequestEnvelope {
        protocol_version: request.protocol_version,
        correlation_id: request.correlation_id.clone(),
        session_id: request.session_id,
        sequence: request.sequence,
        method: request.method.clone(),
        payload: copy_bytes(&request.payload),
        proof: copy_bytes(&request.proof),
    }
}

/// Whether `e` is the unsigned event that the host sends for a session.
pub open spec fn is_host_event(
    e: IpcEnvelope,
    session_id: Seq<u8>,
    sequence: u64,
    event_id: Seq<char>,
    event_type: Seq<char>,
    payload: Seq<u8>,
) -> bool {
    e matches IpcEnvelope::Event(ev) && {
        &&& ev.protocol_version == IPC_PROTOCOL_VERSION
        &&& ev.session_id@ == session_id
        &&& ev.sequence == sequence
        &&& ev.event_id@ == event_id
        &&& ev.event_type@ == event_type
        &&& ev.payload@ == payload
        &&& ev.proof is None
    }
}

/// Frames and sends an event of the session. An event the protocol refuses
/// is a protocol failure; a transport refusal is a transport failure. What
/// reaches the transport is one frame holding the session's event.
pub fn send_core_event<T: IpcTransport + ?Sized, C: IpcCodec>(
    transport: &mut T,
    codec: &C,
    session: &AuthenticatedSession,
    sequence: u64,
    event_id: String,
    event_type: &str,
    payload: Vec<u8>,
) -> (r: Result<(), CoreSupervisorError>)
    ensures
        sequence == 0 || !valid_text(event_id@, IPC_MAX_EVENT_ID_LEN as nat) || !valid_text(
            event_type@,
            IPC_MAX_EVENT_TYPE_LEN as nat,
        ) || payload@.len() > IPC_MAX_PAYLOAD_SIZE ==> r == Err::<(), CoreSupervisorError>(
            CoreSupervisorError::Protocol,
        ),
        r matches Err(e) ==> e == CoreSupervisorError::Protocol || e
            == CoreSupervisorError::Transport,
        old(transport).models_sent() ==> final(transport).models_sent() && records_send(
            old(transport).sent_frames(),
            final(transport).sent_frames(),
            *codec,
            |e: IpcEnvelope|
                is_host_event(
                    e,
                    session.spec_session_id(),
                    sequence,
                    event_id@,
                    event_type@,
                    payload@,
                ),
            r is Ok,
        ),
{
    let bound = session.session_id();
    let event = EventEnvelope {
        protocol_version: IPC_PROTOCOL_VERSION,
        event_id,
        session_id: *bound.as_bytes(),
        sequence,
        event_type: event_type.to_owned(),
        payload,
        proof: None,
    };
    let envelope = IpcEnvelope::Event(event);
    let frame = match encode_frame(codec, &envelope) {
        Ok(frame) => frame,
        Err(_) => {
            return Err(CoreSupervisorError::Protocol);
        },
    };
    let sent = transport.send_frame(frame.as_slice());
    proof {
        lemma_framed_send_recorded(
            old(transport).sent_frames(),
            transport.sent_frames(),
            *codec,
            envelope,
            frame@,
            sent is Ok,
            old(transport).models_sent(),
            |e: IpcEnvelope|
                is_host_event(
                    e,
                    session.spec_session_id(),
                    sequence,
                    event_id@,
                    event_type@,
                    payload@,
                ),
        );
    }
    match sent {
        Ok(()) => Ok(()),
        Err(_) => Err(CoreSupervisorError::Transport),
    }
}

/// A frame that `encode_frame` made of an envelope, handed to a transport
/// that records what it sends, is recorded as a send of that envelope.
proof fn lemma_framed_send_recorded<C: IpcCodec>(
    before: Seq<Seq<u8>>,
    after: Seq<Seq<u8>>,
    codec: C,
    envelope: IpcEnvelope,
    frame: Seq<u8>,
    ok: bool,
    models: bool,
    sent: spec_fn(IpcEnvelope) -> bool,
)
    requires
        sent(envelope),
        envelope_check(envelope) is None,
        exists|encoded: Result<Seq<u8>, IpcError>|
            Ok::<Seq<u8>, IpcError>(frame) == #[trigger] encoded_frame(encoded) && (
            codec.models_encoding() ==> encoded == codec.spec_encode(envelope)),
        models ==> after == (if ok {
            before.push(frame)
        } else {
            before
        }),
    ensures
        models ==> records_send(before, after, codec, sent, ok),
{
    let enc = choose|encoded: Result<Seq<u8>, IpcError>|
        Ok::<Seq<u8>, IpcError>(frame) == #[trigger] encoded_frame(encoded) && (
        codec.models_encoding() ==> encoded == codec.spec_encode(envelope));
    let body = enc->Ok_0;
    assert(frame == frame_of(body));
    assert(frame_result(body) == Ok::<Seq<u8>, IpcError>(frame_of(body)));
}


/// Answers a heartbeat of the session: a successful response, with no error
/// code and the payload `alive`, echoing the request's correlation and
/// sequence.
pub fn answer_heartbeat<T: IpcTransport + ?Sized, C: IpcCodec>(
    transport: &mut T,
    codec: &C,
    session: &AuthenticatedSession,
    request: RequestEnvelope,
) -> (r: Result<(), CoreSupervisorError>)
    ensures
        !valid_text(request.correlation_id@, IPC_MAX_CORRELATION_ID_LEN as nat)
            || request.sequence == 0 ==> r == Err::<(), CoreSupervisorError>(
            CoreSupervisorError::Protocol,
        ),
        r matches Err(e) ==> e == CoreSupervisorError::Protocol || e
            == CoreSupervisorError::Transport,
        old(transport).models_sent() ==> final(transport).models_sent() && records_send(
            old(transport).sent_frames(),
            final(transport).sent_frames(),
            *codec,
            |e: IpcEnvelope|
                answers_request(
                    e,
                    request,
                    session.spec_session_id(),
                    ResponseStatus::Success,
                    None,
                    alive_payload(),
                ),
            r is Ok,
        ),
{
    let alive: Vec<u8> = vec![97u8, 108, 105, 118, 101];
    assert(alive@ =~= alive_payload());
    send_response(transport, codec, session, request, ResponseStatus::Success, None, alive)
}

/// Whether the protocol refuses the response that answers `request` with
/// the given status, error code and payload.
pub open spec fn response_refused(
    request: RequestEnvelope,
    status: ResponseStatus,
    error_code: Option<String>,
    payload_len: nat,
) -> bool {
    ||| !valid_text(request.correlation_id@, IPC_MAX_CORRELATION_ID_LEN as nat)
    ||| payload_len > IPC_MAX_PAYLOAD_SIZE
    ||| request.sequence == 0
    ||| (error_code matches Some(c) && !valid_text(c@, IPC_MAX_ERROR_CODE_LEN as nat))
    ||| (status == ResponseStatus::Success) != (error_code is None)
}

/// Whether `e` is the host's answer to `request` in a session: it echoes the
/// request's correlation and sequence, carries the session's id, and holds
/// the given status, error code and payload, unsigned.
pub open spec fn answers_request(
    e: IpcEnvelope,
    request: RequestEnvelope,
    session_id: Seq<u8>,
    status: ResponseStatus,
    error_code: Option<String>,
    payload: Seq<u8>,
) -> bool {
    e matches IpcEnvelope::Response(res) && {
        &&& res.protocol_version == IPC_PROTOCOL_VERSION
        &&& res.correlation_id@ == request.correlation_id@
        &&& res.session_id@ == session_id
        &&& res.sequence == request.sequence
        &&& res.status == status
        &&& res.error_code == error_code
        &&& res.payload@ == payload
        &&& res.proof is None
    }
}

/// A response that the host sends echoes the correlation and sequence of
/// the request it answers and names the session it belongs to.
pub proof fn lemma_response_echoes_request(
    e: IpcEnvelope,
    request: RequestEnvelope,
    session_id: Seq<u8>,
    status: ResponseStatus,
    error_code: Option<String>,
    payload: Seq<u8>,
)
    requires
        answers_request(e, request, session_id, status, error_code, payload),
    ensures
        kind_spec(e) == IpcMessageKind::Response,
        e->Response_0.correlation_id@ == request.correlation_id@,
        e->Response_0.sequence == request.sequence,
        e->Response_0.session_id@ == session_id,
{
}

/// Frames and sends the response to a request of the session; the response
/// carries the request's correlation and sequence and the session's id.
pub fn send_response<T: IpcTransport + ?Sized, C: IpcCodec>(
    transport: &mut T,
    codec: &C,
    session: &AuthenticatedSession,
    request: RequestEnvelope,
    status: ResponseStatus,
    error_code: Option<String>,
    payload: Vec<u8>,
) -> (r: Result<(), CoreSupervisorError>)
    ensures
        response_refused(request, status, error_code, payload@.len()) ==> r == Err::<
            (),
            CoreSupervisorError,
        >(CoreSupervisorError::Protocol),
        r matches Err(e) ==> e == CoreSupervisorError::Protocol || e
            == CoreSupervisorError::Transport,
        old(transport).models_sent() ==> final(transport).models_sent() && records_send(
            old(transport).sent_frames(),
            final(transport).sent_frames(),
            *codec,
            |e: IpcEnvelope|
                answers_request(
                    e,
                    request,
                    session.spec_session_id(),
                    status,
                    error_code,
                    payload@,
                ),
            r is Ok,
        ),
{
    let bound = session.session_id();
    let ghost refused = response_refused(request, status, error_code, payload@.len());
    let response = ResponseEnvelope {
        protocol_version: IPC_PROTOCOL_VERSION,
        correlation_id: request.correlation_id,
        session_id: *bound.as_bytes(),
        sequence: request.sequence,
        status,
        error_code,
        payload,
        proof: None,
    };
    assert(refused ==> crate::ipc::response_check(response) is Some);
    let envelope = IpcEnvelope::Response(response);
    let frame = match encode_frame(codec, &envelope) {
        Ok(frame) => frame,
        Err(_) => {
            return Err(CoreSupervisorError::Protocol);
        },
    };
    let sent = transport.send_frame(frame.as_slice());
    proof {
        lemma_framed_send_recorded(
            old(transport).sent_frames(),
            transport.sent_frames(),
            *codec,
            envelope,
            frame@,
            sent is Ok,
            old(transport).models_sent(),
            |e: IpcEnvelope|
                answers_request(
                    e,
                    request,
                    session.spec_session_id(),
                    status,
                    error_code,
                    payload@,
                ),
        );
    }
    match sent {
        Ok(()) => Ok(()),
        Err(_) => Err(CoreSupervisorError::Transport),
    }
}

/// The gateway's decision on a capability the Core asks for on behalf of a
/// session: the session counts as authenticated only while the server that
/// issued it holds it neither revoked nor expired.
pub fn capability_decision<C: AuthCrypto>(
    security: &SecurityGateway,
    auth: &AuthenticationServer<C>,
    session: &AuthenticatedSession,
    now_ms: u64,
    capability_id: &str,
) -> (r: SecurityDecision)
    requires
        auth.wf(),
    ensures
        r == crate::security::authorize_spec(
            security.spec_policies(),
            handle_registered(auth.session_map(), auth.spec_launch_id(), *session)
                && session_active(auth.session_map()[session.spec_session_id()], now_ms),
            capability_id@,
            false,
        ),
{
    let request = crate::security::CapabilityRequest { capability_id: capability_id.to_owned() };
    if auth.is_session_active(session, now_ms) {
        let id = session.session_id().to_hex();
        let holder = crate::security::AuthenticatedSession::new(id.as_str());
        security.authorize(Some(&holder), &request, false)
    } else {
        security.authorize(None, &request, false)
    }
}

/// The error a capability result reports, where the gateway did not allow
/// the capability to run.
pub open spec fn refusal_spec(decision: SecurityDecision) -> Option<Seq<char>> {
    match decision {
        SecurityDecision::Allow => None,
        SecurityDecision::RequireConfirmation => Some("confirmation_required"@),
        SecurityDecision::Deny(_) => Some("capability_denied"@),
    }
}

pub fn capability_refusal(decision: &SecurityDecision) -> (r: Option<&'static str>)
    ensures
        match refusal_spec(*decision) {
            Some(m) => r matches Some(s) && s@ == m,
            None => r is None,
        },
{
    match decision {
        SecurityDecision::Allow => None,
        SecurityDecision::RequireConfirmation => Some("confirmation_required"),
        SecurityDecision::Deny(_) => Some("capability_denied"),
    }
}

/// The id of the event that answers a capability request.
pub fn capability_result_event_id(request_id: &str) -> (r: String)
    ensures
        r@ == "capability-result-"@ + request_id@,
{
    let mut out = "capability-result-".to_owned();
    crate::text::push_str_chars(&mut out, request_id);
    out
}

/// The control messages of the authentication handshake with the Core.
#[derive(Debug)]
pub enum CoreControlMessage {
    AuthBootstrap { ipc_protocol_version: u16, launch_id: Vec<u8>, launch_secret: Vec<u8> },
    AuthChallenge {
        ipc_protocol_version: u16,
        auth_protocol_version: u16,
        launch_id: Vec<u8>,
        challenge_id: Vec<u8>,
        nonce: Vec<u8>,
        issued_at_ms: u64,
        expires_at_ms: u64,
        expected_client_id: String,
        correlation_id: String,
    },
    AuthResponse {
        ipc_protocol_version: u16,
        auth_protocol_version: u16,
        launch_id: Vec<u8>,
        challenge_id: Vec<u8>,
        client_id: String,
        correlation_id: String,
        proof: Vec<u8>,
    },
    AuthSession {
        ipc_protocol_version: u16,
        auth_protocol_version: u16,
        session_id: Vec<u8>,
        expires_at_ms: u64,
        correlation_id: String,
    },
}

fn bytes_of(v: &[u8]) -> (r: Vec<u8>)
    ensures
        r@ == v@,
{
    let mut out: Vec<u8> = Vec::new();
    crate::encoding::push_raw(&mut out, v);
    out
}

/// The message that hands the Core its launch identity and bootstrap secret.
pub fn bootstrap_message(launch_id: &LaunchId, launch_secret: &[u8; 32]) -> (r: CoreControlMessage)
    ensures
        r matches CoreControlMessage::AuthBootstrap { ipc_protocol_version, launch_id: l, launch_secret: s }
            && ipc_protocol_version == IPC_PROTOCOL_VERSION && l@ == launch_id@ && s@
            == launch_secret@,
{
    CoreControlMessage::AuthBootstrap {
        ipc_protocol_version: IPC_PROTOCOL_VERSION,
        launch_id: bytes_of(launch_id.as_bytes()),
        launch_secret: bytes_of(launch_secret),
    }
}

/// The wire form of a challenge.
pub fn challenge_to_wire(challenge: &AuthChallenge) -> (r: CoreControlMessage)
    ensures
        r matches CoreControlMessage::AuthChallenge {
            ipc_protocol_version,
            auth_protocol_version,
            launch_id,
            challenge_id,
            nonce,
            issued_at_ms,
            expires_at_ms,
            expected_client_id,
            correlation_id,
        } && ipc_protocol_version == IPC_PROTOCOL_VERSION && auth_protocol_version
            == challenge.protocol_version && launch_id@ == challenge.launch_id@ && challenge_id@
            == challenge.challenge_id@ && nonce@ == challenge.nonce@ && issued_at_ms
            == challenge.issued_at_ms && expires_at_ms == challenge.expires_at_ms
            && expected_client_id@ == challenge.expected_client_id@ && correlation_id@
            == challenge.correlation_id@,
{
    CoreControlMessage::AuthChallenge {
        ipc_protocol_version: IPC_PROTOCOL_VERSION,
        auth_protocol_version: challenge.protocol_version,
        launch_id: bytes_of(challenge.launch_id.as_bytes()),
        challenge_id: bytes_of(challenge.challenge_id.as_bytes()),
        nonce: bytes_of(&challenge.nonce),
        issued_at_ms: challenge.issued_at_ms,
        expires_at_ms: challenge.expires_at_ms,
        expected_client_id: challenge.expected_client_id.clone(),
        correlation_id: challenge.correlation_id.clone(),
    }
}

/// The message that tells the Core its session.
pub fn session_message(session: &AuthenticatedSession, correlation_id: String) -> (r:
    CoreControlMessage)
    ensures
        r matches CoreControlMessage::AuthSession {
            ipc_protocol_version,
            auth_protocol_version,
            session_id,
            expires_at_ms,
            correlation_id: c,
        } && ipc_protocol_version == IPC_PROTOCOL_VERSION && auth_protocol_version
            == AUTH_PROTOCOL_VERSION && session_id@ == session.spec_session_id() && expires_at_ms
            == session.spec_expires_at() && c@ == correlation_id@,
{
    let id = session.session_id();
    CoreControlMessage::AuthSession {
        ipc_protocol_version: IPC_PROTOCOL_VERSION,
        auth_protocol_version: AUTH_PROTOCOL_VERSION,
        session_id: bytes_of(id.as_bytes()),
        expires_at_ms: session.expires_at_ms(),
        correlation_id,
    }
}

/// A 16-byte identifier from the wire.
pub fn array_16(value: &[u8]) -> (r: Result<[u8; 16], CoreSupervisorError>)
    ensures
        value@.len() == 16 ==> (r matches Ok(a) && a@ == value@),
        value@.len() != 16 ==> r == Err::<[u8; 16], CoreSupervisorError>(
            CoreSupervisorError::Handshake,
        ),
{
    if value.len() != 16 {
        return Err(CoreSupervisorError::Handshake);
    }
    let mut out = [0u8; 16];
    let mut i: usize = 0;
    while i < 16
        invariant
            value@.len() == 16,
            i <= 16,
            forall|j: int| 0 <= j < i ==> out@[j] == value@[j],
        decreases 16 - i,
    {
        out.set(i, value[i]);
        i = i + 1;
    }
    assert(out@ =~= value@);
    Ok(out)
}

/// A 32-byte proof from the wire.
pub fn array_32(value: &[u8]) -> (r: Result<[u8; 32], CoreSupervisorError>)
    ensures
        value@.len() == 32 ==> (r matches Ok(a) && a@ == value@),
        value@.len() != 32 ==> r == Err::<[u8; 32], CoreSupervisorError>(
            CoreSupervisorError::Handshake,
        ),
{
    if value.len() != 32 {
        return Err(CoreSupervisorError::Handshake);
    }
    let mut out = [0u8; 32];
    let mut i: usize = 0;
    while i < 32
        invariant
            value@.len() == 32,
            i <= 32,
            forall|j: int| 0 <= j < i ==> out@[j] == value@[j],
        decreases 32 - i,
    {
        out.set(i, value[i]);
        i = i + 1;
    }
    assert(out@ =~= value@);
    Ok(out)
}

/// Reads the Core's answer to a challenge: it must be an `AuthResponse` of
/// the current IPC and authentication protocols, with identifiers and proof
/// of the right sizes.
pub fn response_from_wire(message: CoreControlMessage) -> (r: Result<
    ChallengeResponse,
    CoreSupervisorError,
>)
    ensures
        match message {
            CoreControlMessage::AuthResponse {
                ipc_protocol_version,
                auth_protocol_version,
                launch_id,
                challenge_id,
                client_id,
                correlation_id,
                proof: p,
            } => if ipc_protocol_version != IPC_PROTOCOL_VERSION || auth_protocol_version
                != AUTH_PROTOCOL_VERSION || launch_id@.len() != 16 || challenge_id@.len() != 16
                || p@.len() != 32 {
                r == Err::<ChallengeResponse, CoreSupervisorError>(CoreSupervisorError::Handshake)
            } else {
                r matches Ok(resp) && resp.protocol_version == auth_protocol_version
                    && resp.launch_id@ == launch_id@ && resp.challenge_id@ == challenge_id@
                    && resp.client_id@ == client_id@ && resp.correlation_id@ == correlation_id@
                    && resp.proof@ == p@
            },
            _ => r == Err::<ChallengeResponse, CoreSupervisorError>(CoreSupervisorError::Handshake),
        },
{
    match message {
        CoreControlMessage::AuthResponse {
            ipc_protocol_version,
            auth_protocol_version,
            launch_id,
            challenge_id,
            client_id,
            correlation_id,
            proof: p,
        } => {
            if ipc_protocol_version != IPC_PROTOCOL_VERSION || auth_protocol_version
                != AUTH_PROTOCOL_VERSION {
                return Err(CoreSupervisorError::Handshake);
            }
            let launch = match array_16(launch_id.as_slice()) {
                Ok(a) => a,
                Err(e) => {
                    return Err(e);
                },
            };
            let challenge = match array_16(challenge_id.as_slice()) {
                Ok(a) => a,
                Err(e) => {
                    return Err(e);
                },
            };
            let signed = match array_32(p.as_slice()) {
                Ok(a) => a,
                Err(e) => {
                    return Err(e);
                },
            };
            Ok(
                ChallengeResponse {
                    protocol_version: auth_protocol_version,
                    launch_id: LaunchId::from_bytes(launch),
                    challenge_id: ChallengeId::from_bytes(challenge),
                    client_id,
                    correlation_id,
                    proof: signed,
                },
            )
        },
        _ => Err(CoreSupervisorError::Handshake),
    }
}

/// The host's opening of the handshake: the bootstrap message carrying the
/// launch identity and secret, then a fresh challenge, now pending at the
/// server, for the Core to answer. A challenge the server refuses is an
/// authentication failure.
pub fn begin_handshake<C: AuthCrypto>(
    auth: &mut AuthenticationServer<C>,
    correlation_id: &str,
    now_ms: u64,
) -> (r: Result<(CoreControlMessage, CoreControlMessage), CoreSupervisorError>)
    requires
        old(auth).wf(),
    ensures
        final(auth).wf(),
        final(auth).spec_launch_id() == old(auth).spec_launch_id(),
        final(auth).spec_secret() == old(auth).spec_secret(),
        final(auth).session_map() == old(auth).session_map(),
        !valid_text(correlation_id@, crate::auth::AUTH_MAX_CORRELATION_ID_LEN as nat) ==> r
            == Err::<(CoreControlMessage, CoreControlMessage), CoreSupervisorError>(
            CoreSupervisorError::Authentication,
        ),
        r matches Err(e) ==> e == CoreSupervisorError::Authentication,
        r matches Ok((b, c)) ==> {
            &&& b matches CoreControlMessage::AuthBootstrap {
                ipc_protocol_version,
                launch_id,
                launch_secret,
            } && ipc_protocol_version == IPC_PROTOCOL_VERSION && launch_id@ == old(
                auth,
            ).spec_launch_id() && launch_secret@ == old(auth).spec_secret()
            &&& c matches CoreControlMessage::AuthChallenge {
                challenge_id,
                correlation_id: cid,
                issued_at_ms,
                ..
            } && cid@ == correlation_id@ && issued_at_ms == now_ms && exists|
                k: Seq<u8>,
            |
                k == challenge_id@ && #[trigger] final(auth).challenge_map().contains_key(k)
                    && !final(auth).challenge_map()[k].consumed
        },
{
    let bootstrap = bootstrap_message(&auth.launch_id(), &auth.bootstrap_secret());
    let challenge = match auth.issue_challenge(AUTH_PROTOCOL_VERSION, correlation_id, now_ms) {
        Ok(c) => c,
        Err(_) => {
            return Err(CoreSupervisorError::Authentication);
        },
    };
    let ghost key = challenge.challenge_id@;
    let wire = challenge_to_wire(&challenge);
    assert(auth.challenge_map().contains_key(key));
    Ok((bootstrap, wire))
}

/// The host's close of the handshake once the Core has answered: the answer
/// must be a well-formed challenge response (else a handshake failure) that
/// the server accepts (else an authentication failure). Then the session is
/// established and the message that announces it to the Core is made.
pub fn finish_handshake<C: AuthCrypto>(
    auth: &mut AuthenticationServer<C>,
    answer: CoreControlMessage,
    correlation_id: String,
    now_ms: u64,
) -> (r: Result<(AuthenticatedSession, CoreControlMessage), CoreSupervisorError>)
    requires
        old(auth).wf(),
    ensures
        final(auth).wf(),
        final(auth).spec_launch_id() == old(auth).spec_launch_id(),
        !(answer is AuthResponse) ==> r == Err::<
            (AuthenticatedSession, CoreControlMessage),
            CoreSupervisorError,
        >(CoreSupervisorError::Handshake),
        r matches Err(e) ==> e == CoreSupervisorError::Handshake || e
            == CoreSupervisorError::Authentication,
        r is Err ==> final(auth).session_map() == old(auth).session_map(),
        r matches Ok((h, m)) ==> {
            &&& !old(auth).session_map().contains_key(h.spec_session_id())
            &&& final(auth).session_map().contains_key(h.spec_session_id())
            &&& !final(auth).session_map()[h.spec_session_id()].revoked
            &&& h.spec_issued_at() == now_ms
            &&& h.spec_expires_at() == crate::auth::sat_add(
                now_ms,
                crate::auth::AUTH_SESSION_TTL_MS,
            )
            &&& handle_registered(final(auth).session_map(), final(auth).spec_launch_id(), h)
            &&& m matches CoreControlMessage::AuthSession {
                ipc_protocol_version,
                auth_protocol_version,
                session_id,
                expires_at_ms,
                correlation_id: c,
            } && ipc_protocol_version == IPC_PROTOCOL_VERSION && auth_protocol_version
                == AUTH_PROTOCOL_VERSION && session_id@ == h.spec_session_id() && expires_at_ms
                == h.spec_expires_at() && c@ == correlation_id@
        },
{
    let response = match response_from_wire(answer) {
        Ok(response) => response,
        Err(e) => {
            return Err(e);
        },
    };
    let session = match auth.complete_challenge(&response, now_ms) {
        Ok(session) => session,
        Err(_) => {
            return Err(CoreSupervisorError::Authentication);
        },
    };
    let message = session_message(&session, correlation_id);
    Ok((session, message))
}

/// Frames an encoded control message; an empty or oversized body is a
/// protocol failure.
pub fn frame_control(body: Vec<u8>) -> (r: Result<Vec<u8>, CoreSupervisorError>)
    ensures
        match frame_result(body@) {
            Ok(f) => r matches Ok(x) && x@ == f,
            Err(_) => r == Err::<Vec<u8>, CoreSupervisorError>(CoreSupervisorError::Protocol),
        },
{
    match frame_body(body) {
        Ok(frame) => Ok(frame),
        Err(_) => Err(CoreSupervisorError::Protocol),
    }
}

/// The body of a control frame the Core sent during the handshake. A
/// failed receive or a frame too short for its header is a handshake
/// failure; a header that disagrees with the frame is a protocol failure.
pub fn unframe_control(received: Result<Vec<u8>, IpcError>) -> (r: Result<
    Vec<u8>,
    CoreSupervisorError,
>)
    ensures
        match received {
            Err(_) => r == Err::<Vec<u8>, CoreSupervisorError>(CoreSupervisorError::Handshake),
            Ok(frame) => if frame@.len() < 4 {
                r == Err::<Vec<u8>, CoreSupervisorError>(CoreSupervisorError::Handshake)
            } else {
                match unframe_result(frame@) {
                    Ok(body) => r matches Ok(b) && b@ == body,
                    Err(_) => r == Err::<Vec<u8>, CoreSupervisorError>(
                        CoreSupervisorError::Protocol,
                    ),
                }
            },
        },
{
    let frame = match received {
        Ok(frame) => frame,
        Err(_) => {
            return Err(CoreSupervisorError::Handshake);
        },
    };
    if frame.len() < 4 {
        return Err(CoreSupervisorError::Handshake);
    }
    match unframe_body(frame.as_slice()) {
        Ok(body) => Ok(body),
        Err(_) => Err(CoreSupervisorError::Protocol),
    }
}

} // verus!
