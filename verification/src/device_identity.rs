//! The host's persistent node identity: its shape, and the check applied to
//! a stored one.

use vstd::prelude::*;

use crate::encoding::{hex_char, hex_digit};
use crate::text::utf8_bytes;

verus! {

pub const NODE_ID_PREFIX: &'static str = "node-";
pub const NODE_ID_MAX_LEN: usize = 128;

#[derive(Debug, Clone, Copy, PartialEq, Eq, Structural)]
pub enum DeviceIdentityError {
    AppDataDirectory,
    DirectoryCreate,
    Read,
    Write,
    InvalidStoredIdentity,
}

/// `node-` as bytes.
pub open spec fn node_prefix_bytes() -> Seq<u8> {
    seq![110u8, 111, 100, 101, 45]
}

pub open spec fn is_node_id_byte(b: u8) -> bool {
    (48 <= b <= 57) || (65 <= b <= 90) || (97 <= b <= 122) || b == 45 || b == 95
}

/// A node id starts with `node-`, has at most 128 bytes, and holds only
/// ASCII letters, digits, `-` and `_`.
pub open spec fn valid_node_id(id: Seq<char>) -> bool {
    let b = utf8_bytes(id);
    &&& b.len() >= 5 && b.take(5) == node_prefix_bytes()
    &&& b.len() <= NODE_ID_MAX_LEN
    &&& forall|i: int| 0 <= i < b.len() ==> is_node_id_byte(#[trigger] b[i])
}

/// Checks a stored node id, handing it back when it is well formed.
pub fn validate_node_id(node_id: String) -> (r: Result<String, DeviceIdentityError>)
    ensures
        valid_node_id(node_id@) ==> (r matches Ok(s) && s@ == node_id@),
        !valid_node_id(node_id@) ==> r == Err::<String, DeviceIdentityError>(
            DeviceIdentityError::InvalidStoredIdentity,
        ),
{
    let ok = {
        let b = node_id.as_str().as_bytes();
        if b.len() < 5 || b.len() > NODE_ID_MAX_LEN {
            false
        } else if !(b[0] == 110 && b[1] == 111 && b[2] == 100 && b[3] == 101 && b[4] == 45) {
            assert(b@.take(5) != node_prefix_bytes()) by {
                if b@.take(5) == node_prefix_bytes() {
                    assert(b@.take(5)[0] == b@[0]);
                    assert(b@.take(5)[1] == b@[1]);
                    assert(b@.take(5)[2] == b@[2]);
                    assert(b@.take(5)[3] == b@[3]);
                    assert(b@.take(5)[4] == b@[4]);
                }
            }
            false
        } else {
            assert(b@.take(5) =~= node_prefix_bytes());
            let mut all = true;
            let mut i: usize = 0;
            while i < b.len()
                invariant
                    i <= b@.len(),
                    all == (forall|j: int| 0 <= j < i ==> is_node_id_byte(#[trigger] b@[j])),
                decreases b@.len() - i,
            {
                let c = b[i];
                if !((48 <= c && c <= 57) || (65 <= c && c <= 90) || (97 <= c && c <= 122) || c
                    == 45 || c == 95) {
                    all = false;
                }
                i = i + 1;
            }
            all
        }
    };
    if ok {
        Ok(node_id)
    } else {
        Err(DeviceIdentityError::InvalidStoredIdentity)
    }
}

/// The `width` lowest hexadecimal digits of `v`, most significant first.
pub open spec fn hex_digits(v: nat, width: nat) -> Seq<char>
    decreases width,
{
    if width == 0 {
        Seq::<char>::empty()
    } else {
        hex_digits(v / 16, (width - 1) as nat).push(hex_digit((v % 16) as u8))
    }
}

fn push_hex(out: &mut String, v: u128, width: u32)
    ensures
        final(out)@ == old(out)@ + hex_digits(v as nat, width as nat),
    decreases width,
{
    if width > 0 {
        push_hex(out, v / 16, width - 1);
        let d = (v % 16) as u8;
        out.push(hex_char(d));
        assert(final(out)@ =~= old(out)@ + hex_digits(v as nat, width as nat));
    }
}

/// A node id: `node-`, the timestamp as 32 hexadecimal digits, `-`, and the
/// process id as 8 hexadecimal digits.
pub open spec fn node_id_spec(timestamp: u128, process: u32) -> Seq<char> {
    seq!['n', 'o', 'd', 'e', '-'] + hex_digits(timestamp as nat, 32) + seq!['-'] + hex_digits(
        process as nat,
        8,
    )
}

/// Formats a node id from the moment and the process that created it.
pub fn format_node_id(timestamp: u128, process: u32) -> (r: String)
    ensures
        r@ == node_id_spec(timestamp, process),
{
    let mut out = String::new();
    out.push('n');
    out.push('o');
    out.push('d');
    out.push('e');
    out.push('-');
    push_hex(&mut out, timestamp, 32);
    out.push('-');
    push_hex(&mut out, process as u128, 8);
    assert(out@ =~= node_id_spec(timestamp, process));
    out
}


pub open spec fn is_lower_hex_char(c: char) -> bool {
    ('0' <= c && c <= '9') || ('a' <= c && c <= 'f')
}

proof fn lemma_hex_digits_shape(v: nat, width: nat)
    ensures
        hex_digits(v, width).len() == width,
        forall|i: int| 0 <= i < width ==> is_lower_hex_char(#[trigger] hex_digits(v, width)[i]),
    decreases width,
{
    if width > 0 {
        lemma_hex_digits_shape(v / 16, (width - 1) as nat);
        let d = (v % 16) as u8;
        assert(is_lower_hex_char(hex_digit(d)));
        let prev = hex_digits(v / 16, (width - 1) as nat);
        assert forall|i: int| 0 <= i < width implies is_lower_hex_char(
            #[trigger] hex_digits(v, width)[i],
        ) by {
            if i < width - 1 {
                assert(hex_digits(v, width)[i] == prev[i]);
            }
        }
    }
}

/// Every node id that the host formats passes the check applied to a stored
/// one.
pub proof fn lemma_formatted_node_id_is_valid(timestamp: u128, process: u32)
    ensures
        valid_node_id(node_id_spec(timestamp, process)),
{
    let id = node_id_spec(timestamp, process);
    let head = seq!['n', 'o', 'd', 'e', '-'];
    let t = hex_digits(timestamp as nat, 32);
    let p = hex_digits(process as nat, 8);
    lemma_hex_digits_shape(timestamp as nat, 32);
    lemma_hex_digits_shape(process as nat, 8);
    assert(id.len() == 46);
    assert forall|i: int| 0 <= i < id.len() implies (#[trigger] id[i] as u32) < 0x80 && is_node_id_byte(
        (id[i] as u32) as u8,
    ) by {
        if i < 5 {
            assert(id[i] == head[i]);
        } else if i < 37 {
            assert(id[i] == t[i - 5]);
            assert(is_lower_hex_char(t[i - 5]));
        } else if i == 37 {
            assert(id[i] == '-');
        } else {
            assert(id[i] == p[i - 38]);
            assert(is_lower_hex_char(p[i - 38]));
        }
    }
    crate::text::lemma_ascii_utf8(id);
    let b = utf8_bytes(id);
    assert(b.take(5) =~= node_prefix_bytes()) by {
        assert(b[0] == (id[0] as u32) as u8);
        assert(b[1] == (id[1] as u32) as u8);
        assert(b[2] == (id[2] as u32) as u8);
        assert(b[3] == (id[3] as u32) as u8);
        assert(b[4] == (id[4] as u32) as u8);
        assert(id[0] == 'n' && id[1] == 'o' && id[2] == 'd' && id[3] == 'e' && id[4] == '-');
    }
    assert forall|i: int| 0 <= i < b.len() implies is_node_id_byte(#[trigger] b[i]) by {
        assert(b[i] == (id[i] as u32) as u8);
    }
}

} // verus!
