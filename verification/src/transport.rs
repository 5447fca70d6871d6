//! The message layer of the sync protocol: wire framing, session-id scoping,
//! and the checks each side makes on what it reads.
//!
//! Every wire message is a 4-byte little-endian length header followed by
//! that many ciphertext bytes from the crypto codec. Inside the encryption,
//! a logical payload is either a raw challenge or `session id ‖ bytes`, where
//! the bytes are the literal command `read`, a serialized replica, or the
//! literal confirmation `ok`. The socket reads and writes themselves live in
//! the unverified front end; it hands complete messages in and out of these
//! functions.

use vstd::assert_seqs_equal;
use vstd::bytes::{spec_u32_from_le_bytes, spec_u32_to_le_bytes, u32_from_le_bytes, u32_to_le_bytes};
use vstd::prelude::*;

use crate::crypto::{bytes_eq, push_all, sub_bytes};
use crate::Error;

verus! {

/// The bytes of the literal command `read`.
pub open spec fn read_cmd() -> Seq<u8> {
    seq![0x72u8, 0x65u8, 0x61u8, 0x64u8]
}

/// The bytes of the literal confirmation `ok`.
pub open spec fn ok_reply() -> Seq<u8> {
    seq![0x6fu8, 0x6bu8]
}

/// Returns the bytes of the literal command `read`.
pub fn read_command() -> (r: Vec<u8>)
    ensures
        r@ == read_cmd(),
{
    let mut v: Vec<u8> = Vec::new();
    v.push(0x72);
    v.push(0x65);
    v.push(0x61);
    v.push(0x64);
    proof {
        assert_seqs_equal!(v@, read_cmd());
    }
    v
}

/// Returns the bytes of the literal confirmation `ok`.
pub fn ok_bytes() -> (r: Vec<u8>)
    ensures
        r@ == ok_reply(),
{
    let mut v: Vec<u8> = Vec::new();
    v.push(0x6f);
    v.push(0x6b);
    proof {
        assert_seqs_equal!(v@, ok_reply());
    }
    v
}

/// Frames one ciphertext for the wire: its length as a 4-byte little-endian
/// header, then the ciphertext itself.
pub fn frame_message(ciphertext: &[u8]) -> (r: Vec<u8>)
    requires
        ciphertext@.len() <= u32::MAX,
    ensures
        r@ == spec_u32_to_le_bytes(ciphertext@.len() as u32) + ciphertext@,
{
    let len = ciphertext.len() as u32;
    let mut out = u32_to_le_bytes(len);
    push_all(&mut out, ciphertext);
    out
}

/// Reads the ciphertext length out of a 4-byte little-endian frame header.
pub fn frame_length(header: &[u8]) -> (r: u32)
    requires
        header@.len() == 4,
    ensures
        r == spec_u32_from_le_bytes(header@),
{
    u32_from_le_bytes(header)
}

/// Checks that a message is scoped to the given session: its first eight
/// bytes must equal the session id. Returns the payload behind the id, or an
/// authentication failure.
pub fn check_sid(correct_sid: &[u8], msg_with_sid: &[u8]) -> (r: Result<Vec<u8>, Error>)
    requires
        correct_sid@.len() == 8,
    ensures
        msg_with_sid@.len() >= 8 && msg_with_sid@.take(8) == correct_sid@ ==> (r matches Ok(p)
            && p@ == msg_with_sid@.skip(8)),
        !(msg_with_sid@.len() >= 8 && msg_with_sid@.take(8) == correct_sid@) ==> r == Err::<
            Vec<u8>,
            Error,
        >(Error::AuthErr),
{
    if msg_with_sid.len() < 8 {
        proof {
            assert(msg_with_sid@.len() < 8);
        }
        return Err(Error::AuthErr);
    }
    let head = sub_bytes(msg_with_sid, 0, 8);
    if bytes_eq(head.as_slice(), correct_sid) {
        proof {
            assert(msg_with_sid@.subrange(0, 8) == msg_with_sid@.take(8));
        }
        Ok(sub_bytes(msg_with_sid, 8, msg_with_sid.len()))
    } else {
        proof {
            assert(msg_with_sid@.subrange(0, 8) == msg_with_sid@.take(8));
        }
        Err(Error::AuthErr)
    }
}

/// Prefixes a payload with a session id: the shape of every scoped message.
pub fn with_sid(sid: &[u8], payload: &[u8]) -> (r: Vec<u8>)
    ensures
        r@ == sid@ + payload@,
{
    let mut out: Vec<u8> = Vec::new();
    push_all(&mut out, sid);
    push_all(&mut out, payload);
    out
}

/// Checks the server's answer to the client's challenge: at least sixteen
/// bytes, the first eight being the server-issued session id and the rest
/// exactly the challenge that was sent. Returns the session id, or an
/// authentication failure.
pub fn client_auth_check(challenge: &[u8], msg: &[u8]) -> (r: Result<Vec<u8>, Error>)
    requires
        challenge@.len() == 8,
    ensures
        msg@.len() >= 16 && msg@.skip(8) == challenge@ ==> (r matches Ok(sid) && sid@
            == msg@.take(8)),
        !(msg@.len() >= 16 && msg@.skip(8) == challenge@) ==> r == Err::<Vec<u8>, Error>(
            Error::AuthErr,
        ),
{
    if msg.len() < 16 {
        return Err(Error::AuthErr);
    }
    let rest = sub_bytes(msg, 8, msg.len());
    if bytes_eq(rest.as_slice(), challenge) {
        proof {
            assert(msg@.subrange(8, msg@.len() as int) == msg@.skip(8));
        }
        Ok(sub_bytes(msg, 0, 8))
    } else {
        proof {
            assert(msg@.subrange(8, msg@.len() as int) == msg@.skip(8));
        }
        Err(Error::AuthErr)
    }
}

/// Checks the server's final confirmation: a message scoped to the session
/// whose payload is the literal `ok`. A wrong session id is an authentication
/// failure; anything else in the payload means the server failed to store the
/// written replica.
pub fn client_confirm_check(correct_sid: &[u8], msg_with_sid: &[u8]) -> (r: Result<(), Error>)
    requires
        correct_sid@.len() == 8,
    ensures
        !(msg_with_sid@.len() >= 8 && msg_with_sid@.take(8) == correct_sid@) ==> r == Err::<
            (),
            Error,
        >(Error::AuthErr),
        msg_with_sid@.len() >= 8 && msg_with_sid@.take(8) == correct_sid@ ==> r == (
        if msg_with_sid@.skip(8) == ok_reply() {
            Ok::<(), Error>(())
        } else {
            Err::<(), Error>(Error::ServerWriteFailed)
        }),
{
    let payload = match check_sid(correct_sid, msg_with_sid) {
        Ok(p) => p,
        Err(e) => {
            return Err(e);
        },
    };
    let okb = ok_bytes();
    if bytes_eq(payload.as_slice(), okb.as_slice()) {
        Ok(())
    } else {
        Err(Error::ServerWriteFailed)
    }
}

/// Checks the client's command message on the server side: a message scoped
/// to the session whose payload is the literal `read`. Only a holder of the
/// shared password can produce one, so this check authenticates the client.
pub fn server_read_check(correct_sid: &[u8], msg_with_sid: &[u8]) -> (r: Result<(), Error>)
    requires
        correct_sid@.len() == 8,
    ensures
        r is Ok <==> msg_with_sid@.len() >= 8 && msg_with_sid@.take(8) == correct_sid@
            && msg_with_sid@.skip(8) == read_cmd(),
        r is Err ==> r == Err::<(), Error>(Error::AuthErr),
{
    let payload = match check_sid(correct_sid, msg_with_sid) {
        Ok(p) => p,
        Err(_) => {
            return Err(Error::AuthErr);
        },
    };
    let cmd = read_command();
    if bytes_eq(payload.as_slice(), cmd.as_slice()) {
        Ok(())
    } else {
        Err(Error::AuthErr)
    }
}

} // verus!
