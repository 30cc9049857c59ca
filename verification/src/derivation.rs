//! Deterministic identifier derivation by SHA-256 hash chaining.
//!
//! The warp route ID is the digest of a fixed 53-byte layout: the token
//! address left-padded to 32 bytes, a zero separator byte, and the deployer
//! address. The token ID is the digest of the warp route ID, a token-name
//! string built from its hex rendering, and the decimals byte.

use vstd::prelude::*;
use vstd::utf8::encode_utf8;
use crate::hex_string::{HexString, text_of};

verus! {

/// A 20-byte EVM-style account or contract address.
pub type Address = HexString<20>;

/// A 32-byte value: a SHA-256 digest, used as an opaque identifier.
pub type Hash32 = HexString<32>;

/// The SHA-256 digest of a byte sequence.
pub uninterp spec fn sha256_of(input: Seq<u8>) -> Seq<u8>;

/// Relies on `sha2::Sha256` through `digest::Digest::digest`: the SHA-256
/// digest of the input, 32 bytes depending on the input bytes alone.
#[verifier::external_body]
fn sha256_digest(input: &Vec<u8>) -> (r: Vec<u8>)
    ensures
        r@ == sha256_of(input@),
        r@.len() == 32,
{
    let digest = <sha2::Sha256 as sha2::Digest>::digest(input.as_slice());
    digest.to_vec()
}

/// The 53 bytes hashed for a warp route ID: 12 zero bytes, the 20 bytes of
/// the token address, one zero separator byte, the 20 bytes of the deployer.
pub open spec fn warp_route_preimage(token: Seq<u8>, deployer: Seq<u8>) -> Seq<u8> {
    Seq::new(12, |i: int| 0u8) + token + seq![0u8] + deployer
}

/// The warp route ID: the digest of the warp route preimage.
pub open spec fn warp_route_id_of(token: Seq<u8>, deployer: Seq<u8>) -> Seq<u8> {
    sha256_of(warp_route_preimage(token, deployer))
}

/// The token-name text: a fixed literal followed by the hex text rendering
/// of the warp route ID.
pub open spec fn token_name_text(id: Seq<u8>) -> Seq<char> {
    "Synthetic token for "@ + text_of(id)
}

/// The bytes hashed for a token ID: the raw warp route ID, the UTF-8 bytes
/// of the token-name text, and the decimals byte.
pub open spec fn token_id_preimage(id: Seq<u8>, decimals: u8) -> Seq<u8> {
    id + encode_utf8(token_name_text(id)) + seq![decimals]
}

/// The token ID: the digest of the token ID preimage.
pub open spec fn token_id_of(id: Seq<u8>, decimals: u8) -> Seq<u8> {
    sha256_of(token_id_preimage(id, decimals))
}

/// Appends all of `src` to `dst`, in order.
fn append_bytes(dst: &mut Vec<u8>, src: &Vec<u8>)
    ensures
        final(dst)@ == old(dst)@ + src@,
{
    let mut i: usize = 0;
    while i < src.len()
        invariant
            i <= src@.len(),
            dst@ == old(dst)@ + src@.take(i as int),
        decreases src@.len() - i,
    {
        dst.push(src[i]);
        proof {
            assert(src@.take(i + 1) =~= src@.take(i as int).push(src@[i as int]));
            assert(old(dst)@ + src@.take(i + 1) =~= (old(dst)@ + src@.take(i as int)).push(
                src@[i as int],
            ));
        }
        i += 1;
    }
    proof {
        assert(src@.take(src@.len() as int) =~= src@);
    }
}

/// Derives the warp route ID for a token address and a deployer address:
/// the SHA-256 digest of exactly the 53-byte warp route preimage.
pub fn get_warp_route_id(token_address: &Address, deployer: &Address) -> (r: Hash32)
    ensures
        r@ == warp_route_id_of(token_address@, deployer@),
{
    let token_bytes = token_address.render_to_binary();
    let deployer_bytes = deployer.render_to_binary();
    let mut input: Vec<u8> = Vec::new();
    let mut i: usize = 0;
    while i < 12
        invariant
            i <= 12,
            input@ =~= Seq::new(i as nat, |j: int| 0u8),
        decreases 12 - i,
    {
        input.push(0u8);
        proof {
            assert(input@ =~= Seq::new((i + 1) as nat, |j: int| 0u8));
        }
        i += 1;
    }
    append_bytes(&mut input, &token_bytes);
    input.push(0u8);
    append_bytes(&mut input, &deployer_bytes);
    proof {
        assert(input@ =~= warp_route_preimage(token_address@, deployer@));
    }
    let digest = sha256_digest(&input);
    HexString::from_exact_bytes(digest)
}

/// Derives the token ID for a warp route ID and a decimals value: the
/// SHA-256 digest of exactly the token ID preimage.
pub fn get_token_id(warp_route_id: &Hash32, decimals: u8) -> (r: Hash32)
    ensures
        r@ == token_id_of(warp_route_id@, decimals),
{
    let id_bytes = warp_route_id.render_to_binary();
    let text = warp_route_id.render_to_text();
    let mut name = String::from_str("Synthetic token for ");
    name.append(text.as_str());
    proof {
        assert(name@ == token_name_text(warp_route_id@));
    }
    let name_bytes = name.as_str().as_bytes_vec();
    let mut input: Vec<u8> = Vec::new();
    append_bytes(&mut input, &id_bytes);
    append_bytes(&mut input, &name_bytes);
    input.push(decimals);
    proof {
        assert(input@ =~= token_id_preimage(warp_route_id@, decimals));
    }
    let digest = sha256_digest(&input);
    HexString::from_exact_bytes(digest)
}

/// Law: the derivation is deterministic. Any two warp route IDs stated by
/// `get_warp_route_id` for the same pair of addresses are the same bytes.
pub proof fn lemma_warp_route_id_deterministic(
    token: Seq<u8>,
    deployer: Seq<u8>,
    r1: Seq<u8>,
    r2: Seq<u8>,
)
    requires
        r1 == warp_route_id_of(token, deployer),
        r2 == warp_route_id_of(token, deployer),
    ensures
        r1 == r2,
{
}

/// Law: the token ID derivation is deterministic in both arguments.
pub proof fn lemma_token_id_deterministic(id: Seq<u8>, decimals: u8, r1: Seq<u8>, r2: Seq<u8>)
    requires
        r1 == token_id_of(id, decimals),
        r2 == token_id_of(id, decimals),
    ensures
        r1 == r2,
{
}

/// The warp route preimage separates its fields: two distinct pairs of
/// 20-byte addresses never hash the same input. (Whether the digests then
/// differ is a property of SHA-256 itself and is not stated here.)
pub proof fn lemma_warp_route_preimage_injective(
    t1: Seq<u8>,
    d1: Seq<u8>,
    t2: Seq<u8>,
    d2: Seq<u8>,
)
    requires
        t1.len() == 20,
        d1.len() == 20,
        t2.len() == 20,
        d2.len() == 20,
        t1 != t2 || d1 != d2,
    ensures
        warp_route_preimage(t1, d1) != warp_route_preimage(t2, d2),
{
    let p1 = warp_route_preimage(t1, d1);
    let p2 = warp_route_preimage(t2, d2);
    if p1 == p2 {
        assert forall|i: int| 0 <= i < 20 implies t1[i] == t2[i] && d1[i] == d2[i] by {
            assert(p1[12 + i] == t1[i]);
            assert(p2[12 + i] == t2[i]);
            assert(p1[33 + i] == d1[i]);
            assert(p2[33 + i] == d2[i]);
        }
        assert(t1 =~= t2);
        assert(d1 =~= d2);
    }
}

/// The token ID preimage carries the decimals byte at its end: different
/// decimals values never hash the same input.
pub proof fn lemma_token_id_preimage_decimals(id: Seq<u8>, d1: u8, d2: u8)
    requires
        d1 != d2,
    ensures
        token_id_preimage(id, d1) != token_id_preimage(id, d2),
{
    let p1 = token_id_preimage(id, d1);
    let p2 = token_id_preimage(id, d2);
    assert(p1[p1.len() - 1] == d1);
    assert(p2[p2.len() - 1] == d2);
}

} // verus!
