//! The byte strings that authentication proofs and session keys are computed
//! over bind every field they are made of: two inputs with the same bytes
//! agree on every field, so a proof over one input is never a proof over
//! another.

use vstd::prelude::*;

use crate::auth::{
    auth_domain, challenge_transcript_spec, lemma_id_lengths, message_domain,
    message_transcript_spec, session_domain, session_key_material_spec, AuthChallenge,
};
use crate::encoding::{be_u16, be_u64, length_prefixed, text_field};
use crate::material::{
    lemma_be_u16_injective, lemma_be_u64_injective, lemma_prefixed_split, lemma_split,
};
use crate::text::{lemma_utf8_injective, utf8_bytes};

verus! {

/// A text field of at most `u32::MAX` bytes at the head of a byte string is
/// read back unambiguously.
proof fn lemma_text_head(s1: Seq<char>, r1: Seq<u8>, s2: Seq<char>, r2: Seq<u8>)
    requires
        text_field(s1) + r1 == text_field(s2) + r2,
        utf8_bytes(s1).len() <= u32::MAX,
        utf8_bytes(s2).len() <= u32::MAX,
    ensures
        s1 == s2,
        r1 == r2,
{
    lemma_prefixed_split(utf8_bytes(s1), r1, utf8_bytes(s2), r2);
    lemma_utf8_injective(s1, s2);
}

/// A length-prefixed field that ends a byte string is read back whole.
proof fn lemma_prefixed_last(v1: Seq<u8>, v2: Seq<u8>)
    requires
        length_prefixed(v1) == length_prefixed(v2),
        v1.len() <= u32::MAX,
        v2.len() <= u32::MAX,
    ensures
        v1 == v2,
{
    assert(length_prefixed(v1) + Seq::<u8>::empty() =~= length_prefixed(v1));
    assert(length_prefixed(v2) + Seq::<u8>::empty() =~= length_prefixed(v2));
    lemma_prefixed_split(v1, Seq::empty(), v2, Seq::empty());
}

/// The challenge transcript opens with the authentication domain and the
/// protocol version, and closes with the correlation id as a text field.
pub proof fn lemma_challenge_transcript_frame(c: AuthChallenge)
    ensures
        challenge_transcript_spec(c).subrange(0, auth_domain().len() as int) == auth_domain(),
        challenge_transcript_spec(c).subrange(
            auth_domain().len() as int,
            auth_domain().len() + 2int,
        ) == be_u16(c.protocol_version),
        challenge_transcript_spec(c).subrange(
            challenge_transcript_spec(c).len() - text_field(c.correlation_id@).len(),
            challenge_transcript_spec(c).len() as int,
        ) == text_field(c.correlation_id@),
{
    let t = challenge_transcript_spec(c);
    let tail = be_u16(c.protocol_version) + length_prefixed(c.launch_id@) + length_prefixed(
        c.challenge_id@,
    ) + length_prefixed(c.nonce@) + be_u64(c.issued_at_ms) + be_u64(c.expires_at_ms) + text_field(
        c.expected_client_id@,
    );
    assert(t =~= auth_domain() + (tail + text_field(c.correlation_id@)));
    assert(t.subrange(0, auth_domain().len() as int) =~= auth_domain());
    assert(t.subrange(auth_domain().len() as int, auth_domain().len() + 2int) =~= be_u16(
        c.protocol_version,
    ));
    assert(t.subrange(t.len() - text_field(c.correlation_id@).len(), t.len() as int)
        =~= text_field(c.correlation_id@));
}

/// Where each field of a challenge stands in its transcript: after the
/// 14-byte domain and the 2-byte version come the launch id at bytes 20..36,
/// the challenge id at 40..56 and the nonce at 60..92 (each after its 4-byte
/// length), the issue time at 92..100 and the expiry at 100..108, then the
/// expected client id and the correlation id as text fields, in that order,
/// up to the end.
#[verifier::rlimit(40)]
pub proof fn lemma_challenge_transcript_layout(c: AuthChallenge)
    ensures
        ({
            let t = challenge_transcript_spec(c);
            let x = text_field(c.expected_client_id@);
            &&& t.len() == 108 + x.len() + text_field(c.correlation_id@).len()
            &&& t.subrange(14, 16) == be_u16(c.protocol_version)
            &&& t.subrange(20, 36) == c.launch_id@
            &&& t.subrange(40, 56) == c.challenge_id@
            &&& t.subrange(60, 92) == c.nonce@
            &&& t.subrange(92, 100) == be_u64(c.issued_at_ms)
            &&& t.subrange(100, 108) == be_u64(c.expires_at_ms)
            &&& t.subrange(108, 108int + x.len()) == x
            &&& t.subrange(108int + x.len(), t.len() as int) == text_field(c.correlation_id@)
        }),
{
    lemma_id_lengths(c);
    let t = challenge_transcript_spec(c);
    let x = text_field(c.expected_client_id@);
    let k = text_field(c.correlation_id@);
    let head = auth_domain() + be_u16(c.protocol_version) + length_prefixed(c.launch_id@)
        + length_prefixed(c.challenge_id@) + length_prefixed(c.nonce@) + be_u64(c.issued_at_ms)
        + be_u64(c.expires_at_ms);
    assert(head.len() == 108);
    assert(t =~= head + x + k);
    assert(t.subrange(14, 16) =~= be_u16(c.protocol_version));
    assert(t.subrange(20, 36) =~= c.launch_id@);
    assert(t.subrange(40, 56) =~= c.challenge_id@);
    assert(t.subrange(60, 92) =~= c.nonce@);
    assert(t.subrange(92, 100) =~= be_u64(c.issued_at_ms));
    assert(t.subrange(100, 108) =~= be_u64(c.expires_at_ms));
    assert(t.subrange(108, 108int + x.len()) =~= x);
    assert(t.subrange(108int + x.len(), t.len() as int) =~= k);
}

/// Where each field of a session message stands in its transcript: after
/// the 17-byte domain come the 2-byte version, the session id after its
/// 4-byte length, the correlation id as a text field, the 8-byte sequence,
/// and the digest as a length-prefixed field up to the end.
#[verifier::rlimit(40)]
pub proof fn lemma_message_transcript_layout(
    v: u16,
    s: Seq<u8>,
    c: Seq<char>,
    q: u64,
    d: Seq<u8>,
)
    ensures
        ({
            let t = message_transcript_spec(v, s, c, q, d);
            let a = 23 + s.len();
            let b = a + text_field(c).len();
            &&& t.len() == b + 8 + length_prefixed(d).len()
            &&& t.subrange(17, 19) == be_u16(v)
            &&& t.subrange(23, a as int) == s
            &&& t.subrange(a as int, b as int) == text_field(c)
            &&& t.subrange(b as int, b + 8int) == be_u64(q)
            &&& t.subrange(b + 8int, t.len() as int) == length_prefixed(d)
        }),
{
    let t = message_transcript_spec(v, s, c, q, d);
    let a = 23 + s.len();
    let b = a + text_field(c).len();
    let head = message_domain() + be_u16(v) + length_prefixed(s);
    assert(head.len() == a);
    assert(t =~= head + text_field(c) + be_u64(q) + length_prefixed(d));
    assert(t.subrange(17, 19) =~= be_u16(v));
    assert(t.subrange(23, a as int) =~= s);
    assert(t.subrange(a as int, b as int) =~= text_field(c));
    assert(t.subrange(b as int, b + 8int) =~= be_u64(q));
    assert(t.subrange(b + 8int, t.len() as int) =~= length_prefixed(d));
}

/// Where the parts of session key material stand: after the 17-byte domain,
/// the transcript after its 4-byte length, then the session id as a
/// length-prefixed field up to the end.
pub proof fn lemma_session_key_material_layout(t: Seq<u8>, s: Seq<u8>)
    ensures
        ({
            let m = session_key_material_spec(t, s);
            &&& m.len() == 21 + t.len() + length_prefixed(s).len()
            &&& m.subrange(21, 21int + t.len()) == t
            &&& m.subrange(21int + t.len(), m.len() as int) == length_prefixed(s)
        }),
{
    let m = session_key_material_spec(t, s);
    assert(m =~= session_domain() + length_prefixed(t) + length_prefixed(s));
    assert(m.subrange(21, 21int + t.len()) =~= t);
    assert(m.subrange(21int + t.len(), m.len() as int) =~= length_prefixed(s));
}

/// A challenge transcript binds the whole challenge: two challenges (with
/// texts of at most `u32::MAX` bytes) whose transcripts are equal agree on
/// the protocol version, launch id, challenge id, nonce, lifetime, expected
/// client id and correlation id.
#[verifier::rlimit(40)]
pub proof fn lemma_challenge_transcript_injective(a: AuthChallenge, b: AuthChallenge)
    requires
        challenge_transcript_spec(a) == challenge_transcript_spec(b),
        utf8_bytes(a.expected_client_id@).len() <= u32::MAX,
        utf8_bytes(b.expected_client_id@).len() <= u32::MAX,
        utf8_bytes(a.correlation_id@).len() <= u32::MAX,
        utf8_bytes(b.correlation_id@).len() <= u32::MAX,
    ensures
        a.protocol_version == b.protocol_version,
        a.launch_id@ == b.launch_id@,
        a.challenge_id@ == b.challenge_id@,
        a.nonce@ == b.nonce@,
        a.issued_at_ms == b.issued_at_ms,
        a.expires_at_ms == b.expires_at_ms,
        a.expected_client_id@ == b.expected_client_id@,
        a.correlation_id@ == b.correlation_id@,
{
    lemma_id_lengths(a);
    lemma_id_lengths(b);
    let ka = text_field(a.expected_client_id@) + text_field(a.correlation_id@);
    let kb = text_field(b.expected_client_id@) + text_field(b.correlation_id@);
    let ea = be_u64(a.expires_at_ms) + ka;
    let eb = be_u64(b.expires_at_ms) + kb;
    let ia = be_u64(a.issued_at_ms) + ea;
    let ib = be_u64(b.issued_at_ms) + eb;
    let na = length_prefixed(a.nonce@) + ia;
    let nb = length_prefixed(b.nonce@) + ib;
    let ca = length_prefixed(a.challenge_id@) + na;
    let cb = length_prefixed(b.challenge_id@) + nb;
    let la = length_prefixed(a.launch_id@) + ca;
    let lb = length_prefixed(b.launch_id@) + cb;
    let va = be_u16(a.protocol_version) + la;
    let vb = be_u16(b.protocol_version) + lb;
    assert(challenge_transcript_spec(a) =~= auth_domain() + va);
    assert(challenge_transcript_spec(b) =~= auth_domain() + vb);
    lemma_split(auth_domain(), va, auth_domain(), vb);
    lemma_split(be_u16(a.protocol_version), la, be_u16(b.protocol_version), lb);
    lemma_be_u16_injective(a.protocol_version, b.protocol_version);
    lemma_prefixed_split(a.launch_id@, ca, b.launch_id@, cb);
    lemma_prefixed_split(a.challenge_id@, na, b.challenge_id@, nb);
    lemma_prefixed_split(a.nonce@, ia, b.nonce@, ib);
    lemma_split(be_u64(a.issued_at_ms), ea, be_u64(b.issued_at_ms), eb);
    lemma_be_u64_injective(a.issued_at_ms, b.issued_at_ms);
    lemma_split(be_u64(a.expires_at_ms), ka, be_u64(b.expires_at_ms), kb);
    lemma_be_u64_injective(a.expires_at_ms, b.expires_at_ms);
    lemma_text_head(
        a.expected_client_id@,
        text_field(a.correlation_id@),
        b.expected_client_id@,
        text_field(b.correlation_id@),
    );
    lemma_prefixed_last(utf8_bytes(a.correlation_id@), utf8_bytes(b.correlation_id@));
    lemma_utf8_injective(a.correlation_id@, b.correlation_id@);
}

/// Session key material binds both the challenge transcript and the session
/// id: equal material means the same transcript and the same session.
pub proof fn lemma_session_key_material_injective(
    t1: Seq<u8>,
    s1: Seq<u8>,
    t2: Seq<u8>,
    s2: Seq<u8>,
)
    requires
        session_key_material_spec(t1, s1) == session_key_material_spec(t2, s2),
        t1.len() <= u32::MAX,
        t2.len() <= u32::MAX,
        s1.len() <= u32::MAX,
        s2.len() <= u32::MAX,
    ensures
        t1 == t2,
        s1 == s2,
{
    assert(session_key_material_spec(t1, s1) =~= session_domain() + (length_prefixed(t1)
        + length_prefixed(s1)));
    assert(session_key_material_spec(t2, s2) =~= session_domain() + (length_prefixed(t2)
        + length_prefixed(s2)));
    lemma_split(
        session_domain(),
        length_prefixed(t1) + length_prefixed(s1),
        session_domain(),
        length_prefixed(t2) + length_prefixed(s2),
    );
    lemma_prefixed_split(t1, length_prefixed(s1), t2, length_prefixed(s2));
    lemma_prefixed_last(s1, s2);
}

/// Session key material closes with the session id as a length-prefixed
/// field.
pub proof fn lemma_session_key_material_ends_with_session(t: Seq<u8>, s: Seq<u8>)
    ensures
        session_key_material_spec(t, s).subrange(
            session_key_material_spec(t, s).len() - length_prefixed(s).len(),
            session_key_material_spec(t, s).len() as int,
        ) == length_prefixed(s),
{
    let m = session_key_material_spec(t, s);
    assert(m =~= (session_domain() + length_prefixed(t)) + length_prefixed(s));
    assert(m.subrange(m.len() - length_prefixed(s).len(), m.len() as int) =~= length_prefixed(s));
}

/// A message transcript binds every field of the message: equal transcripts
/// mean the same protocol version, session, correlation id, sequence and
/// digest.
#[verifier::rlimit(40)]
pub proof fn lemma_message_transcript_injective(
    v1: u16,
    s1: Seq<u8>,
    c1: Seq<char>,
    q1: u64,
    d1: Seq<u8>,
    v2: u16,
    s2: Seq<u8>,
    c2: Seq<char>,
    q2: u64,
    d2: Seq<u8>,
)
    requires
        message_transcript_spec(v1, s1, c1, q1, d1) == message_transcript_spec(v2, s2, c2, q2, d2),
        s1.len() <= u32::MAX,
        s2.len() <= u32::MAX,
        utf8_bytes(c1).len() <= u32::MAX,
        utf8_bytes(c2).len() <= u32::MAX,
        d1.len() <= u32::MAX,
        d2.len() <= u32::MAX,
    ensures
        v1 == v2,
        s1 == s2,
        c1 == c2,
        q1 == q2,
        d1 == d2,
{
    let qa = be_u64(q1) + length_prefixed(d1);
    let qb = be_u64(q2) + length_prefixed(d2);
    let ca = text_field(c1) + qa;
    let cb = text_field(c2) + qb;
    let sa = length_prefixed(s1) + ca;
    let sb = length_prefixed(s2) + cb;
    let va = be_u16(v1) + sa;
    let vb = be_u16(v2) + sb;
    assert(message_transcript_spec(v1, s1, c1, q1, d1) =~= message_domain() + va);
    assert(message_transcript_spec(v2, s2, c2, q2, d2) =~= message_domain() + vb);
    lemma_split(message_domain(), va, message_domain(), vb);
    lemma_split(be_u16(v1), sa, be_u16(v2), sb);
    lemma_be_u16_injective(v1, v2);
    lemma_prefixed_split(s1, ca, s2, cb);
    lemma_text_head(c1, qa, c2, qb);
    lemma_split(be_u64(q1), length_prefixed(d1), be_u64(q2), length_prefixed(d2));
    lemma_be_u64_injective(q1, q2);
    lemma_prefixed_last(d1, d2);
}

} // verus!
