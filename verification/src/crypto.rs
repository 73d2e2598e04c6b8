//! Keyed message authentication over byte buffers.
//!
//! Every wire message carries an HMAC-SHA-256 tag computed under the secret
//! key shared between the sender and the receiver. The tag itself is an
//! outside computation; its value is named by the uninterpreted function
//! [`hmac_sha256_of`], and everything the library proves about tags goes
//! through that name.

use vstd::prelude::*;

use hmac::Mac;
use sha2::Digest;

verus! {

pub const HASH_SIZE: usize = 32;

/// The length in bytes of a shared secret key.
pub const SECRET_KEY_SIZE: usize = 32;

/// A fixed-size digest or authentication tag.
pub type Hash = [u8; 32];

/// What HMAC-SHA-256 returns for a key and a message. The function is a
/// deterministic function of its two arguments alone; its value is stated
/// only through the contracts of the trusted items below.
pub uninterp spec fn hmac_sha256_of(key: Seq<u8>, bytes: Seq<u8>) -> Seq<u8>;

/// What SHA-256 returns for a byte string: a deterministic function of
/// the hashed bytes alone, stated only through `do_hash`'s contract.
pub uninterp spec fn sha256_of(bytes: Seq<u8>) -> Seq<u8>;

/// Relies on sha2's Sha256: the digest is a function of the hashed bytes
/// alone, and fills the 32-byte output.
#[verifier::external_body]
pub fn do_hash(bytes: &[u8]) -> (r: Hash)
    ensures
        r@ == sha256_of(bytes@),
{
    let hash = sha2::Sha256::digest(bytes);
    hash.into()
}

/// The digest used for tree leaves: SHA-256 over the bytes behind a
/// single zero prefix byte.
pub fn do_hash_merkle(bytes: &[u8]) -> (r: Hash)
    ensures
        r@ == sha256_of(seq![0u8] + bytes@),
{
    let n = bytes.len();
    let mut prefixed: Vec<u8> = Vec::new();
    prefixed.push(0x00);
    let mut i: usize = 0;
    while i < n
        invariant
            i <= n == bytes@.len(),
            prefixed@ == seq![0u8] + bytes@.take(i as int),
        decreases n - i,
    {
        prefixed.push(bytes[i]);
        i = i + 1;
        proof {
            assert(seq![0u8] + bytes@.take(i as int) =~= (seq![0u8] + bytes@.take(i - 1)).push(
                bytes@[i - 1],
            ));
        }
    }
    proof {
        assert(bytes@.take(n as int) =~= bytes@);
    }
    do_hash(prefixed.as_slice())
}

/// A tag is accepted for a message and key exactly when it equals the
/// HMAC-SHA-256 tag of that message under that key.
pub open spec fn mac_accepts(bytes: Seq<u8>, key: Seq<u8>, tag: Seq<u8>) -> bool {
    tag == hmac_sha256_of(key, bytes)
}

/// Relies on the hmac crate's `Hmac<Sha256>`: `new_from_slice` accepts a key
/// of any length, and the finalized tag is a function of the key and the
/// hashed bytes alone.
#[verifier::external_body]
pub fn do_mac(bytes: &[u8], secret_key: &[u8]) -> (r: Hash)
    ensures
        r@ == hmac_sha256_of(secret_key@, bytes@),
{
    let mut mac = hmac::Hmac::<sha2::Sha256>::new_from_slice(secret_key)
        .expect("HMAC can take secret key of any size");
    mac.update(bytes);
    mac.finalize().into_bytes().into()
}

/// Relies on the hmac crate's `verify_slice`: it recomputes the tag for the
/// key and bytes and accepts exactly when the given tag equals it (by a
/// constant-time comparison; a tag of the wrong length is rejected).
#[verifier::external_body]
fn hmac_verify(bytes: &[u8], secret_key: &[u8], tag: &[u8]) -> (r: bool)
    ensures
        r == (tag@ == hmac_sha256_of(secret_key@, bytes@)),
{
    let mut mac = hmac::Hmac::<sha2::Sha256>::new_from_slice(secret_key)
        .expect("HMAC can take secret key of any size");
    mac.update(bytes);
    mac.verify_slice(tag).is_ok()
}

/// Checks an authentication tag: true exactly when `mac_v` is the
/// HMAC-SHA-256 tag of `bytes` under `secret_key`. Never panics, whatever
/// the tag looks like.
pub fn verf_mac(bytes: &[u8], secret_key: &[u8], mac_v: &[u8]) -> (r: bool)
    ensures
        r == mac_accepts(bytes@, secret_key@, mac_v@),
{
    hmac_verify(bytes, secret_key, mac_v)
}

/// MAC soundness: the tag computed for a message and key is accepted for
/// that message and key, and every other tag is rejected.
pub proof fn lemma_mac_soundness(bytes: Seq<u8>, key: Seq<u8>, tag: Seq<u8>)
    ensures
        mac_accepts(bytes, key, hmac_sha256_of(key, bytes)),
        tag != hmac_sha256_of(key, bytes) ==> !mac_accepts(bytes, key, tag),
{
}

} // verus!
