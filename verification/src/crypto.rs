//! Password-based authenticated encryption of opaque byte payloads.
//!
//! A ciphertext is `salt ‖ nonce ‖ sealed bytes`: a fresh random 16-byte salt
//! feeds Argon2 to derive the 32-byte key, and AES-256-GCM seals the payload
//! under a fresh random 12-byte nonce. Both random values are drawn anew per
//! call, so equal payloads never repeat a ciphertext.

use vstd::assert_seqs_equal;
use vstd::prelude::*;

use crate::rng::{random_bytes_12, random_bytes_16};
use crate::Error;

verus! {

/// The 32-byte key that Argon2, with its default parameters, derives from a
/// password and a salt: a function of the two alone.
pub uninterp spec fn argon2_key(passwd: Seq<u8>, salt: Seq<u8>) -> Seq<u8>;

/// The bytes AES-256-GCM produces for a message under a key and nonce (the
/// ciphertext with its appended authentication tag): a function of the three
/// alone.
pub uninterp spec fn aes_seal(key: Seq<u8>, nonce: Seq<u8>, msg: Seq<u8>) -> Seq<u8>;

/// The ciphertext layout this module produces: the key-derivation salt, the
/// nonce, then the payload sealed under the derived key.
pub open spec fn sealed(passwd: Seq<u8>, salt: Seq<u8>, nonce: Seq<u8>, msg: Seq<u8>) -> Seq<
    u8,
> {
    salt + nonce + aes_seal(argon2_key(passwd, salt), nonce, msg)
}

/// Relies on argon2's `Argon2::default().hash_password_into`: with a 16-byte
/// salt, a password no longer than its documented maximum and a fixed 32-byte
/// output, derivation succeeds, and the key is a function of password and
/// salt alone.
#[verifier::external_body]
fn derive_key(passwd: &[u8], salt: &[u8]) -> (r: Vec<u8>)
    requires
        salt@.len() == 16,
        passwd@.len() <= 0xFFFFFFFF,
    ensures
        r@ == argon2_key(passwd@, salt@),
        r@.len() == 32,
{
    let argon2 = argon2::Argon2::default();
    let mut key = [0u8; 32];
    argon2.hash_password_into(passwd, salt, &mut key).expect(
        "key derivation with valid lengths",
    );
    key.to_vec()
}

/// Relies on aes_gcm's `Aes256Gcm` encryption (the `Aead` trait): with a
/// 32-byte key, a 12-byte nonce and a message short enough for the cipher's
/// 32-bit block counter, sealing succeeds, the result is a function of key,
/// nonce and message alone, and it is the message's length plus the 16-byte
/// tag.
#[verifier::external_body]
fn aes_encrypt(key: &[u8], nonce: &[u8], msg: &[u8]) -> (r: Vec<u8>)
    requires
        key@.len() == 32,
        nonce@.len() == 12,
        msg@.len() <= u32::MAX,
    ensures
        r@ == aes_seal(key@, nonce@, msg@),
        r@.len() == msg@.len() + 16,
{
    let cipher = <aes_gcm::Aes256Gcm as aes_gcm::aead::NewAead>::new(aes_gcm::Key::from_slice(
        key,
    ));
    aes_gcm::aead::Aead::encrypt(&cipher, aes_gcm::Nonce::from_slice(nonce), msg).expect(
        "sealing within the size bound",
    )
}

/// True when `p` is the message, within the cipher's size cap, whose sealing
/// under this key and nonce yields `ct`. Sealing keeps the message's length
/// (plus the tag) and is invertible, so at most one such message exists.
pub open spec fn aes_opens_to(key: Seq<u8>, nonce: Seq<u8>, ct: Seq<u8>, p: Seq<u8>) -> bool {
    &&& p.len() <= u32::MAX
    &&& ct == aes_seal(key, nonce, p)
    &&& forall|m: Seq<u8>| m.len() <= u32::MAX && ct == aes_seal(key, nonce, m) ==> m == p
}

/// Relies on aes_gcm's `Aes256Gcm` decryption: on a ciphertext short enough
/// for the cipher's 32-bit block counter, it inverts sealing, returning the
/// one in-range message whose sealing under this key and nonce yields the
/// ciphertext, and failing on anything that no such message seals to.
#[verifier::external_body]
fn aes_decrypt(key: &[u8], nonce: &[u8], ct: &[u8]) -> (r: Result<Vec<u8>, ()>)
    requires
        key@.len() == 32,
        nonce@.len() == 12,
        ct@.len() <= u32::MAX,
    ensures
        r matches Ok(p) ==> aes_opens_to(key@, nonce@, ct@, p@),
        (exists|m: Seq<u8>| m.len() <= u32::MAX && ct@ == aes_seal(key@, nonce@, m)) ==> r
            is Ok,
{
    let cipher = <aes_gcm::Aes256Gcm as aes_gcm::aead::NewAead>::new(aes_gcm::Key::from_slice(
        key,
    ));
    match aes_gcm::aead::Aead::decrypt(&cipher, aes_gcm::Nonce::from_slice(nonce), ct) {
        Ok(p) => Ok(p),
        Err(_) => Err(()),
    }
}

/// Copies the bytes of `src` onto the end of `out`.
pub(crate) fn push_all(out: &mut Vec<u8>, src: &[u8])
    ensures
        final(out)@ == old(out)@ + src@,
{
    let mut i: usize = 0;
    while i < src.len()
        invariant
            i <= src@.len(),
            out@ == old(out)@ + src@.take(i as int),
        decreases src@.len() - i,
    {
        out.push(src[i]);
        proof {
            assert(out@ == old(out)@ + src@.take(i + 1));
        }
        i += 1;
    }
    proof {
        assert(src@.take(src@.len() as int) == src@);
    }
}

/// Returns the bytes of `s` from `from` (inclusive) to `to` (exclusive).
pub(crate) fn sub_bytes(s: &[u8], from: usize, to: usize) -> (r: Vec<u8>)
    requires
        from <= to <= s@.len(),
    ensures
        r@ == s@.subrange(from as int, to as int),
{
    let mut out: Vec<u8> = Vec::new();
    let mut i: usize = from;
    while i < to
        invariant
            from <= i <= to <= s@.len(),
            out@ == s@.subrange(from as int, i as int),
        decreases to - i,
    {
        out.push(s[i]);
        proof {
            assert_seqs_equal!(out@, s@.subrange(from as int, i + 1));
        }
        i += 1;
    }
    out
}

/// True when `a` and `b` hold the same bytes.
pub fn bytes_eq(a: &[u8], b: &[u8]) -> (r: bool)
    ensures
        r == (a@ == b@),
{
    if a.len() != b.len() {
        proof {
            assert(a@ != b@);
        }
        return false;
    }
    let mut i: usize = 0;
    while i < a.len()
        invariant
            i <= a@.len(),
            a@.len() == b@.len(),
            forall|j: int| 0 <= j < i ==> a@[j] == b@[j],
        decreases a@.len() - i,
    {
        if a[i] != b[i] {
            proof {
                assert(a@[i as int] != b@[i as int]);
            }
            return false;
        }
        i += 1;
    }
    proof {
        assert_seqs_equal!(a@, b@);
    }
    true
}

/// Encrypts `msg` with the given password: derives a key from the password
/// and a fresh random salt, seals the payload under a fresh random nonce, and
/// returns `salt ‖ nonce ‖ sealed bytes` — 44 bytes more than the payload.
/// The fresh randomness makes equal inputs yield different ciphertexts on
/// every call. The size caps are the key derivation's documented password
/// limit and, matching the wire framing, a ciphertext that fits a `u32`.
pub fn encrypt(msg: &[u8], passwd: &[u8]) -> (r: Result<Vec<u8>, Error>)
    requires
        passwd@.len() <= 0xFFFFFFFF,
        msg@.len() + 44 <= u32::MAX,
    ensures
        r matches Ok(ct) ==> ct@.len() == msg@.len() + 44,
        r matches Ok(ct) ==> exists|salt: Seq<u8>, nonce: Seq<u8>|
            salt.len() == 16 && nonce.len() == 12 && ct@ == sealed(passwd@, salt, nonce, msg@),
        r is Ok,
{
    let key_salt = random_bytes_16();
    let key = derive_key(passwd, key_salt.as_slice());
    let nonce_bits = random_bytes_12();
    let ct = aes_encrypt(key.as_slice(), nonce_bits.as_slice(), msg);
    let mut result: Vec<u8> = Vec::new();
    push_all(&mut result, key_salt.as_slice());
    push_all(&mut result, nonce_bits.as_slice());
    push_all(&mut result, ct.as_slice());
    proof {
        assert_seqs_equal!(result@, sealed(passwd@, key_salt@, nonce_bits@, msg@));
    }
    Ok(result)
}

/// Decrypts a ciphertext produced by `encrypt` with the given password:
/// splits the 16-byte salt and 12-byte nonce, re-derives the key, and opens
/// the remainder. Fails with `DecryptingErr` when the input is shorter than
/// the salt-and-nonce header, or when authentication fails (a wrong password
/// or tampered bytes). The size caps are the key derivation's documented
/// password limit and, matching the wire framing, a ciphertext that fits a
/// `u32`.
pub fn decrypt(ciphertext: &[u8], passwd: &[u8]) -> (r: Result<Vec<u8>, Error>)
    requires
        passwd@.len() <= 0xFFFFFFFF,
        ciphertext@.len() <= u32::MAX,
    ensures
        ciphertext@.len() < 28 ==> r == Err::<Vec<u8>, Error>(Error::DecryptingErr),
        r is Err ==> r == Err::<Vec<u8>, Error>(Error::DecryptingErr),
        ciphertext@.len() >= 28 ==> forall|m: Seq<u8>|
            m.len() + 44 <= u32::MAX && ciphertext@ == sealed(
                passwd@,
                ciphertext@.subrange(0, 16),
                ciphertext@.subrange(16, 28),
                m,
            ) ==> (r matches Ok(p) && p@ == m),
{
    if ciphertext.len() < 28 {
        return Err(Error::DecryptingErr);
    }
    let key_salt = sub_bytes(ciphertext, 0, 16);
    let key = derive_key(passwd, key_salt.as_slice());
    let nonce_bits = sub_bytes(ciphertext, 16, 28);
    let body = sub_bytes(ciphertext, 28, ciphertext.len());
    let r = aes_decrypt(key.as_slice(), nonce_bits.as_slice(), body.as_slice());
    proof {
        assert forall|m: Seq<u8>|
            m.len() + 44 <= u32::MAX && ciphertext@ == sealed(
                passwd@,
                ciphertext@.subrange(0, 16),
                ciphertext@.subrange(16, 28),
                m,
            ) implies body@ == aes_seal(key@, nonce_bits@, m) && m.len() <= u32::MAX by {
            assert_seqs_equal!(
                body@,
                aes_seal(argon2_key(passwd@, ciphertext@.subrange(0, 16)),
                    ciphertext@.subrange(16, 28), m),
            );
        }
    }
    proof {
        assert forall|m: Seq<u8>|
            m.len() + 44 <= u32::MAX && ciphertext@ == sealed(
                passwd@,
                ciphertext@.subrange(0, 16),
                ciphertext@.subrange(16, 28),
                m,
            ) implies (r matches Ok(p) && p@ == m) by {
            assert(body@ == aes_seal(key@, nonce_bits@, m));
            assert(r is Ok);
            assert(aes_opens_to(key@, nonce_bits@, body@, r->Ok_0@));
        }
    }
    match r {
        Ok(p) => Ok(p),
        Err(_) => Err(Error::DecryptingErr),
    }
}

/// Law: decrypting what `encrypt` produced under the same password yields the
/// payload. Every ciphertext `encrypt` can emit carries its salt and nonce in
/// the header positions that `decrypt` reads, so it satisfies exactly the
/// hypothesis under which `decrypt` promises the payload back.
pub proof fn lemma_crypto_round_trip(pw: Seq<u8>, salt: Seq<u8>, nonce: Seq<u8>, msg: Seq<u8>)
    requires
        salt.len() == 16,
        nonce.len() == 12,
    ensures
        ({
            let ct = sealed(pw, salt, nonce, msg);
            &&& ct.len() >= 28
            &&& ct.subrange(0, 16) == salt
            &&& ct.subrange(16, 28) == nonce
            &&& ct == sealed(pw, ct.subrange(0, 16), ct.subrange(16, 28), msg)
        }),
{
    let ct = sealed(pw, salt, nonce, msg);
    assert(ct.subrange(0, 16) =~= salt);
    assert(ct.subrange(16, 28) =~= nonce);
}

} // verus!
