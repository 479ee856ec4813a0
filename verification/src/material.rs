//! Canonical message material determines the message: two valid envelopes
//! with the same material agree on every field that a proof covers.

use vstd::prelude::*;

use crate::auth::valid_text;
use crate::encoding::{be_u16, be_u32, be_u64, field_len, length_prefixed, text_field};
use crate::ipc::{
    envelope_check, event_check, ipc_domain, kind_byte, kind_spec, material_body, material_spec,
    optional_text_field, protocol_version_spec, request_check, response_check, session_id_spec,
    status_byte, EventEnvelope, IpcEnvelope, RequestEnvelope, ResponseEnvelope,
    IPC_MAX_PAYLOAD_SIZE,
};
use crate::text::{lemma_utf8_injective, utf8_bytes};

verus! {

/// An optional text by value.
pub open spec fn optional_text_view(value: Option<String>) -> Option<Seq<char>> {
    match value {
        Some(v) => Some(v@),
        None => None,
    }
}

/// Two envelopes agree on everything that their canonical material covers:
/// kind, protocol version, session, and the kind's own fields.
pub open spec fn same_covered_fields(a: IpcEnvelope, b: IpcEnvelope) -> bool {
    &&& kind_spec(a) == kind_spec(b)
    &&& protocol_version_spec(a) == protocol_version_spec(b)
    &&& session_id_spec(a)@ == session_id_spec(b)@
    &&& match (a, b) {
        (IpcEnvelope::Request(x), IpcEnvelope::Request(y)) => {
            &&& x.correlation_id@ == y.correlation_id@
            &&& x.sequence == y.sequence
            &&& x.method@ == y.method@
            &&& x.payload@ == y.payload@
        },
        (IpcEnvelope::Response(x), IpcEnvelope::Response(y)) => {
            &&& x.correlation_id@ == y.correlation_id@
            &&& x.sequence == y.sequence
            &&& x.status == y.status
            &&& optional_text_view(x.error_code) == optional_text_view(y.error_code)
            &&& x.payload@ == y.payload@
        },
        (IpcEnvelope::Event(x), IpcEnvelope::Event(y)) => {
            &&& x.event_id@ == y.event_id@
            &&& x.sequence == y.sequence
            &&& x.event_type@ == y.event_type@
            &&& x.payload@ == y.payload@
        },
        _ => false,
    }
}

/// Equal concatenations with equally long heads have equal heads and tails.
pub proof fn lemma_split(x1: Seq<u8>, r1: Seq<u8>, x2: Seq<u8>, r2: Seq<u8>)
    requires
        x1 + r1 == x2 + r2,
        x1.len() == x2.len(),
    ensures
        x1 == x2,
        r1 == r2,
{
    assert(x1 =~= (x1 + r1).subrange(0, x1.len() as int));
    assert(x2 =~= (x2 + r2).subrange(0, x2.len() as int));
    assert(r1 =~= (x1 + r1).subrange(x1.len() as int, (x1 + r1).len() as int));
    assert(r2 =~= (x2 + r2).subrange(x2.len() as int, (x2 + r2).len() as int));
}

pub proof fn lemma_be_u16_injective(a: u16, b: u16)
    requires
        be_u16(a) == be_u16(b),
    ensures
        a == b,
{
    assert(be_u16(a)[0] == be_u16(b)[0]);
    assert(be_u16(a)[1] == be_u16(b)[1]);
    assert(a == b) by (bit_vector)
        requires
            (a >> 8u16) as u8 == (b >> 8u16) as u8,
            a as u8 == b as u8,
    ;
}

pub proof fn lemma_be_u32_injective(a: u32, b: u32)
    requires
        be_u32(a) == be_u32(b),
    ensures
        a == b,
{
    assert(be_u32(a)[0] == be_u32(b)[0]);
    assert(be_u32(a)[1] == be_u32(b)[1]);
    assert(be_u32(a)[2] == be_u32(b)[2]);
    assert(be_u32(a)[3] == be_u32(b)[3]);
    assert(a == b) by (bit_vector)
        requires
            (a >> 24u32) as u8 == (b >> 24u32) as u8,
            (a >> 16u32) as u8 == (b >> 16u32) as u8,
            (a >> 8u32) as u8 == (b >> 8u32) as u8,
            a as u8 == b as u8,
    ;
}

pub proof fn lemma_be_u64_injective(a: u64, b: u64)
    requires
        be_u64(a) == be_u64(b),
    ensures
        a == b,
{
    assert(be_u64(a)[0] == be_u64(b)[0]);
    assert(be_u64(a)[1] == be_u64(b)[1]);
    assert(be_u64(a)[2] == be_u64(b)[2]);
    assert(be_u64(a)[3] == be_u64(b)[3]);
    assert(be_u64(a)[4] == be_u64(b)[4]);
    assert(be_u64(a)[5] == be_u64(b)[5]);
    assert(be_u64(a)[6] == be_u64(b)[6]);
    assert(be_u64(a)[7] == be_u64(b)[7]);
    assert(a == b) by (bit_vector)
        requires
            (a >> 56u64) as u8 == (b >> 56u64) as u8,
            (a >> 48u64) as u8 == (b >> 48u64) as u8,
            (a >> 40u64) as u8 == (b >> 40u64) as u8,
            (a >> 32u64) as u8 == (b >> 32u64) as u8,
            (a >> 24u64) as u8 == (b >> 24u64) as u8,
            (a >> 16u64) as u8 == (b >> 16u64) as u8,
            (a >> 8u64) as u8 == (b >> 8u64) as u8,
            a as u8 == b as u8,
    ;
}

/// A length-prefixed field at the head of a byte string is read back
/// unambiguously.
pub proof fn lemma_prefixed_split(v1: Seq<u8>, r1: Seq<u8>, v2: Seq<u8>, r2: Seq<u8>)
    requires
        length_prefixed(v1) + r1 == length_prefixed(v2) + r2,
        v1.len() <= u32::MAX,
        v2.len() <= u32::MAX,
    ensures
        v1 == v2,
        r1 == r2,
{
    let h1 = be_u32(field_len(v1.len()));
    let h2 = be_u32(field_len(v2.len()));
    assert(length_prefixed(v1) + r1 =~= h1 + (v1 + r1));
    assert(length_prefixed(v2) + r2 =~= h2 + (v2 + r2));
    lemma_split(h1, v1 + r1, h2, v2 + r2);
    lemma_be_u32_injective(field_len(v1.len()), field_len(v2.len()));
    lemma_split(v1, r1, v2, r2);
}

/// A length-prefixed field read back whole.
proof fn lemma_prefixed_whole(v1: Seq<u8>, v2: Seq<u8>)
    requires
        length_prefixed(v1) == length_prefixed(v2),
        v1.len() <= IPC_MAX_PAYLOAD_SIZE,
        v2.len() <= IPC_MAX_PAYLOAD_SIZE,
    ensures
        v1 == v2,
{
    assert(length_prefixed(v1) + Seq::<u8>::empty() =~= length_prefixed(v1));
    assert(length_prefixed(v2) + Seq::<u8>::empty() =~= length_prefixed(v2));
    lemma_prefixed_split(v1, Seq::empty(), v2, Seq::empty());
}

/// A text field of at most `max` bytes, at the head of a byte string, is
/// read back unambiguously.
proof fn lemma_text_split(s1: Seq<char>, r1: Seq<u8>, s2: Seq<char>, r2: Seq<u8>, max: nat)
    requires
        text_field(s1) + r1 == text_field(s2) + r2,
        valid_text(s1, max),
        valid_text(s2, max),
        max <= u32::MAX,
    ensures
        s1 == s2,
        r1 == r2,
{
    lemma_prefixed_split(utf8_bytes(s1), r1, utf8_bytes(s2), r2);
    lemma_utf8_injective(s1, s2);
}

/// The common header of canonical material is read back unambiguously: the
/// same material means the same kind, version, session and kind's fields.
proof fn lemma_material_header(a: IpcEnvelope, b: IpcEnvelope)
    requires
        material_spec(a) == material_spec(b),
    ensures
        kind_spec(a) == kind_spec(b),
        protocol_version_spec(a) == protocol_version_spec(b),
        session_id_spec(a)@ == session_id_spec(b)@,
        material_body(a) == material_body(b),
{
    let ka = seq![kind_byte(kind_spec(a))];
    let kb = seq![kind_byte(kind_spec(b))];
    let va = be_u16(protocol_version_spec(a));
    let vb = be_u16(protocol_version_spec(b));
    let sa = session_id_spec(a)@;
    let sb = session_id_spec(b)@;
    let ba = material_body(a);
    let bb = material_body(b);
    assert(material_spec(a) =~= ipc_domain() + (ka + (va + (length_prefixed(sa) + ba))));
    assert(material_spec(b) =~= ipc_domain() + (kb + (vb + (length_prefixed(sb) + bb))));
    lemma_split(
        ipc_domain(),
        ka + (va + (length_prefixed(sa) + ba)),
        ipc_domain(),
        kb + (vb + (length_prefixed(sb) + bb)),
    );
    lemma_split(ka, va + (length_prefixed(sa) + ba), kb, vb + (length_prefixed(sb) + bb));
    assert(ka[0] == kb[0]);
    lemma_split(va, length_prefixed(sa) + ba, vb, length_prefixed(sb) + bb);
    lemma_be_u16_injective(protocol_version_spec(a), protocol_version_spec(b));
    lemma_prefixed_split(sa, ba, sb, bb);
}

proof fn lemma_request_body(x: RequestEnvelope, y: RequestEnvelope)
    requires
        request_check(x) is None,
        request_check(y) is None,
        material_body(IpcEnvelope::Request(x)) == material_body(IpcEnvelope::Request(y)),
    ensures
        x.correlation_id@ == y.correlation_id@,
        x.sequence == y.sequence,
        x.method@ == y.method@,
        x.payload@ == y.payload@,
{
    let tx = be_u64(x.sequence) + (text_field(x.method@) + length_prefixed(x.payload@));
    let ty = be_u64(y.sequence) + (text_field(y.method@) + length_prefixed(y.payload@));
    assert(material_body(IpcEnvelope::Request(x)) =~= text_field(x.correlation_id@) + tx);
    assert(material_body(IpcEnvelope::Request(y)) =~= text_field(y.correlation_id@) + ty);
    lemma_text_split(x.correlation_id@, tx, y.correlation_id@, ty, 128);
    lemma_split(
        be_u64(x.sequence),
        text_field(x.method@) + length_prefixed(x.payload@),
        be_u64(y.sequence),
        text_field(y.method@) + length_prefixed(y.payload@),
    );
    lemma_be_u64_injective(x.sequence, y.sequence);
    lemma_text_split(x.method@, length_prefixed(x.payload@), y.method@, length_prefixed(y.payload@), 128);
    lemma_prefixed_whole(x.payload@, y.payload@);
}

proof fn lemma_response_body(x: ResponseEnvelope, y: ResponseEnvelope)
    requires
        response_check(x) is None,
        response_check(y) is None,
        material_body(IpcEnvelope::Response(x)) == material_body(IpcEnvelope::Response(y)),
    ensures
        x.correlation_id@ == y.correlation_id@,
        x.sequence == y.sequence,
        x.status == y.status,
        optional_text_view(x.error_code) == optional_text_view(y.error_code),
        x.payload@ == y.payload@,
{
    let px = length_prefixed(x.payload@);
    let py = length_prefixed(y.payload@);
    let rest_x = optional_text_field(x.error_code) + px;
    let rest_y = optional_text_field(y.error_code) + py;
    let tx = be_u64(x.sequence) + (seq![status_byte(x.status)] + rest_x);
    let ty = be_u64(y.sequence) + (seq![status_byte(y.status)] + rest_y);
    assert(material_body(IpcEnvelope::Response(x)) =~= text_field(x.correlation_id@) + tx);
    assert(material_body(IpcEnvelope::Response(y)) =~= text_field(y.correlation_id@) + ty);
    lemma_text_split(x.correlation_id@, tx, y.correlation_id@, ty, 128);
    lemma_split(
        be_u64(x.sequence),
        seq![status_byte(x.status)] + rest_x,
        be_u64(y.sequence),
        seq![status_byte(y.status)] + rest_y,
    );
    lemma_be_u64_injective(x.sequence, y.sequence);
    lemma_split(seq![status_byte(x.status)], rest_x, seq![status_byte(y.status)], rest_y);
    assert(seq![status_byte(x.status)][0] == seq![status_byte(y.status)][0]);
    assert(rest_x[0] == rest_y[0]);
    match (x.error_code, y.error_code) {
        (Some(cx), Some(cy)) => {
            assert(rest_x =~= seq![1u8] + (text_field(cx@) + px));
            assert(rest_y =~= seq![1u8] + (text_field(cy@) + py));
            lemma_split(seq![1u8], text_field(cx@) + px, seq![1u8], text_field(cy@) + py);
            lemma_text_split(cx@, px, cy@, py, 128);
            lemma_prefixed_whole(x.payload@, y.payload@);
        },
        (None, None) => {
            lemma_split(seq![0u8], px, seq![0u8], py);
            lemma_prefixed_whole(x.payload@, y.payload@);
        },
        (Some(cx), None) => {
            assert(rest_x[0] == 1u8);
            assert(rest_y[0] == 0u8);
        },
        (None, Some(cy)) => {
            assert(rest_x[0] == 0u8);
            assert(rest_y[0] == 1u8);
        },
    }
}

proof fn lemma_event_body(x: EventEnvelope, y: EventEnvelope)
    requires
        event_check(x) is None,
        event_check(y) is None,
        material_body(IpcEnvelope::Event(x)) == material_body(IpcEnvelope::Event(y)),
    ensures
        x.event_id@ == y.event_id@,
        x.sequence == y.sequence,
        x.event_type@ == y.event_type@,
        x.payload@ == y.payload@,
{
    let tx = be_u64(x.sequence) + (text_field(x.event_type@) + length_prefixed(x.payload@));
    let ty = be_u64(y.sequence) + (text_field(y.event_type@) + length_prefixed(y.payload@));
    assert(material_body(IpcEnvelope::Event(x)) =~= text_field(x.event_id@) + tx);
    assert(material_body(IpcEnvelope::Event(y)) =~= text_field(y.event_id@) + ty);
    lemma_text_split(x.event_id@, tx, y.event_id@, ty, 128);
    lemma_split(
        be_u64(x.sequence),
        text_field(x.event_type@) + length_prefixed(x.payload@),
        be_u64(y.sequence),
        text_field(y.event_type@) + length_prefixed(y.payload@),
    );
    lemma_be_u64_injective(x.sequence, y.sequence);
    lemma_text_split(
        x.event_type@,
        length_prefixed(x.payload@),
        y.event_type@,
        length_prefixed(y.payload@),
        128,
    );
    lemma_prefixed_whole(x.payload@, y.payload@);
}

/// Canonical material is unambiguous: two envelopes that the protocol
/// accepts and that have the same material agree on the kind, protocol
/// version, session and every field of their kind that a proof covers.
pub proof fn lemma_material_injective(a: IpcEnvelope, b: IpcEnvelope)
    requires
        envelope_check(a) is None,
        envelope_check(b) is None,
        material_spec(a) == material_spec(b),
    ensures
        same_covered_fields(a, b),
{
    lemma_material_header(a, b);
    match (a, b) {
        (IpcEnvelope::Request(x), IpcEnvelope::Request(y)) => {
            lemma_request_body(x, y);
        },
        (IpcEnvelope::Response(x), IpcEnvelope::Response(y)) => {
            lemma_response_body(x, y);
        },
        (IpcEnvelope::Event(x), IpcEnvelope::Event(y)) => {
            lemma_event_body(x, y);
        },
        _ => {},
    }
}

} // verus!
