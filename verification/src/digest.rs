//! SHA-1 digests and the announce token built on them.

use crate::hexfmt::{hex, hex_spec, lemma_hex_injective};
use vstd::prelude::*;
use vstd::string::*;
use vstd::utf8::*;

verus! {

/// The length of a SHA-1 digest.
pub const DIGEST_LEN: usize = 20;

/// The SHA-1 digest of `data`, as the `sha1` crate computes it.
pub uninterp spec fn sha1(data: Seq<u8>) -> Seq<u8>;

/// Hashes `data` with `sha1::Sha1`: one `update` with the whole input, then
/// the bytes of `digest`, of which there are always twenty.
#[verifier::external_body]
pub(crate) fn sha1_digest(data: &[u8]) -> (out: Vec<u8>)
    ensures
        out@ == sha1(data@),
        out@.len() == DIGEST_LEN,
{
    let mut hasher = sha1::Sha1::new();
    hasher.update(data);
    hasher.digest().bytes().to_vec()
}

/// The token for a peer: the hexadecimal SHA-1 digest of the peer's address
/// in text form followed by the secret.
pub open spec fn token_spec(ip: Seq<char>, secret: Seq<char>) -> Seq<char> {
    hex_spec(sha1(encode_utf8(ip) + encode_utf8(secret)))
}

/// Computes the announce token that belongs to the address `ip` under
/// `secret`. The token depends on nothing else.
pub fn token_for(ip: &str, secret: &str) -> (token: String)
    ensures
        token@ == token_spec(ip@, secret@),
        token@.len() == 2 * DIGEST_LEN,
{
    let mut data: Vec<u8> = ip.as_bytes_vec();
    let mut tail: Vec<u8> = secret.as_bytes_vec();
    data.append(&mut tail);
    let digest = sha1_digest(data.as_slice());
    hex(digest)
}

/// Equal addresses and equal secrets have equal tokens.
pub proof fn lemma_token_is_a_function(
    ip1: Seq<char>,
    secret1: Seq<char>,
    ip2: Seq<char>,
    secret2: Seq<char>,
)
    requires
        ip1 == ip2,
        secret1 == secret2,
    ensures
        token_spec(ip1, secret1) == token_spec(ip2, secret2),
{
}

/// Two different addresses have different tokens under one secret, unless
/// SHA-1 collides on the two inputs that are hashed.
pub proof fn lemma_token_tells_addresses_apart(ip1: Seq<char>, ip2: Seq<char>, secret: Seq<char>)
    requires
        ip1 != ip2,
        encode_utf8(ip1) + encode_utf8(secret) != encode_utf8(ip2) + encode_utf8(secret) ==> sha1(
            encode_utf8(ip1) + encode_utf8(secret),
        ) != sha1(encode_utf8(ip2) + encode_utf8(secret)),
    ensures
        token_spec(ip1, secret) != token_spec(ip2, secret),
{
    let a = encode_utf8(ip1);
    let b = encode_utf8(ip2);
    let s = encode_utf8(secret);
    if a + s == b + s {
        assert((a + s).len() == a.len() + s.len());
        assert((b + s).len() == b.len() + s.len());
        assert(a =~= (a + s).subrange(0, a.len() as int));
        assert(b =~= (b + s).subrange(0, b.len() as int));
        encode_utf8_decode_utf8(ip1);
        encode_utf8_decode_utf8(ip2);
        assert(false);
    }
    if hex_spec(sha1(a + s)) == hex_spec(sha1(b + s)) {
        lemma_hex_injective(sha1(a + s), sha1(b + s));
    }
}

} // verus!
