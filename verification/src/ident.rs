//! Node identities: random ones, and the forged neighbour of a remote node.

use crate::hexfmt::{hex, hex_spec};
use vstd::prelude::*;

verus! {

/// The length of a node id and of an info-hash.
pub const ID_LEN: usize = 20;

/// How many leading bytes a forged id shares with the remote node's id.
pub const SHARED_PREFIX: usize = 10;

/// One byte drawn by `rand::random`. Nothing is promised of its value.
#[verifier::external_body]
pub(crate) fn random_byte() -> u8 {
    rand::random::<u8>()
}

/// `n` random bytes; none where `n` is not positive.
pub fn rand_bytes(n: i32) -> (result: Vec<u8>)
    ensures
        result@.len() == if n > 0 {
            n as int
        } else {
            0
        },
{
    let mut result: Vec<u8> = Vec::new();
    let mut i: i32 = 0;
    while i < n
        invariant
            0 <= i,
            i <= n || i == 0,
            result@.len() == i,
        decreases n - i,
    {
        result.push(random_byte());
        i += 1;
    }
    result
}

/// The identity shown to a remote node: the first ten bytes of the remote
/// node's own id, then the first ten bytes of the local id.
pub open spec fn neighbour_spec(target: Seq<u8>, local: Seq<u8>) -> Seq<u8> {
    target.subrange(0, SHARED_PREFIX as int) + local.subrange(0, SHARED_PREFIX as int)
}

/// Forges the id that makes this node look close to `target`.
pub fn neighbour_id(target: Vec<u8>, local: &Vec<u8>) -> (result: Vec<u8>)
    requires
        target@.len() >= SHARED_PREFIX,
        local@.len() >= SHARED_PREFIX,
    ensures
        result@ == neighbour_spec(target@, local@),
        result@.len() == ID_LEN,
        result@.subrange(0, 10) == target@.subrange(0, 10),
        result@.subrange(10, 20) == local@.subrange(0, 10),
{
    let mut result: Vec<u8> = Vec::new();
    let mut i: usize = 0;
    while i < SHARED_PREFIX
        invariant
            i <= SHARED_PREFIX <= target@.len(),
            result@ == target@.subrange(0, i as int),
        decreases SHARED_PREFIX - i,
    {
        result.push(target[i]);
        i += 1;
        assert(result@ =~= target@.subrange(0, i as int));
    }
    let mut j: usize = 0;
    while j < SHARED_PREFIX
        invariant
            j <= SHARED_PREFIX <= local@.len(),
            result@ == target@.subrange(0, SHARED_PREFIX as int) + local@.subrange(0, j as int),
        decreases SHARED_PREFIX - j,
    {
        result.push(local[j]);
        j += 1;
        assert(result@ =~= target@.subrange(0, SHARED_PREFIX as int) + local@.subrange(
            0,
            j as int,
        ));
    }
    assert(result@.subrange(0, 10) =~= target@.subrange(0, 10));
    assert(result@.subrange(10, 20) =~= local@.subrange(0, 10));
    result
}

/// A fresh peer id for the peer-wire handshake: the hexadecimal text of ten
/// random bytes, twenty characters in all.
pub fn random_peer_id() -> (id: String)
    ensures
        id@.len() == ID_LEN,
        exists|seed: Seq<u8>| seed.len() == 10 && id@ == #[trigger] hex_spec(seed),
{
    let seed = rand_bytes(10);
    hex(seed)
}

} // verus!
