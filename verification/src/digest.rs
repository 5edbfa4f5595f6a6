//! Routing from a backend selector to the hash function behind it.
//!
//! The hash functions themselves are not part of this crate: each of them is
//! reached through one small function whose contract is taken on trust and
//! names the digest as a function of the input bytes.

use crate::selector::ImplKind;
use vstd::prelude::*;

verus! {

/// Bytes in every digest that the harness handles.
pub const DIGEST_LEN: usize = 32;

/// The BLAKE3 hash of `input` at its default output length of 32 bytes.
pub uninterp spec fn blake3_hash(input: Seq<u8>) -> Seq<u8>;

/// The BLAKE2b hash of `input`, unkeyed, at an output length of 32 bytes.
pub uninterp spec fn blake2b_256_hash(input: Seq<u8>) -> Seq<u8>;

/// The BLAKE2s hash of `input`, unkeyed, at an output length of 32 bytes.
pub uninterp spec fn blake2s_256_hash(input: Seq<u8>) -> Seq<u8>;

/// The digest that each backend owes for `input`. Both BLAKE3 backends compute
/// the same function; they differ in how many threads do the work.
pub open spec fn digest_spec(kind: ImplKind, input: Seq<u8>) -> Seq<u8> {
    match kind {
        ImplKind::Blake3Single => blake3_hash(input),
        ImplKind::Blake3Parallel => blake3_hash(input),
        ImplKind::Blake2b256 => blake2b_256_hash(input),
        ImplKind::Blake2s256 => blake2s_256_hash(input),
    }
}

/// Trusted: calls `blake3::hash` and unwraps the `Hash` into its 32 bytes. The
/// contract claims only that the bytes depend on the input alone.
#[verifier::external_body]
fn hash_blake3_single(buf: &[u8]) -> (out: [u8; 32])
    ensures
        out@ == blake3_hash(buf@),
{
    blake3::hash(buf).into()
}

/// Trusted: feeds a fresh `blake3::Hasher` through `update_rayon` and reads it
/// with `finalize`. The contract claims that this is the same digest as the
/// one-shot `blake3::hash`, which is how the hasher is documented: incremental
/// input gives the hash of the whole input, and `update_rayon` is `update`
/// carried out on a thread pool.
#[verifier::external_body]
fn hash_blake3_parallel(buf: &[u8]) -> (out: [u8; 32])
    ensures
        out@ == blake3_hash(buf@),
{
    let mut h = blake3::Hasher::new();
    h.update_rayon(buf);
    h.finalize().into()
}

/// Trusted: runs `blake2::Blake2b<U32>` through `Digest::new`, `update` and
/// `finalize`. The contract claims only that the 32 bytes depend on the input
/// alone.
#[verifier::external_body]
fn hash_blake2b_256(buf: &[u8]) -> (out: [u8; 32])
    ensures
        out@ == blake2b_256_hash(buf@),
{
    let mut hasher = <blake2::Blake2b<blake2::digest::consts::U32> as blake2::Digest>::new();
    blake2::Digest::update(&mut hasher, buf);
    blake2::Digest::finalize(hasher).into()
}

/// Trusted: runs `blake2::Blake2s256` through `Digest::new`, `update` and
/// `finalize`. The contract claims only that the 32 bytes depend on the input
/// alone.
#[verifier::external_body]
fn hash_blake2s_256(buf: &[u8]) -> (out: [u8; 32])
    ensures
        out@ == blake2s_256_hash(buf@),
{
    let mut hasher = <blake2::Blake2s256 as blake2::Digest>::new();
    blake2::Digest::update(&mut hasher, buf);
    blake2::Digest::finalize(hasher).into()
}

/// Hashes `buf` with the backend that `kind` selects. Every selector accepts
/// every buffer, the empty one included.
pub fn digest_once(kind: ImplKind, buf: &[u8]) -> (out: [u8; 32])
    ensures
        out@ == digest_spec(kind, buf@),
        out@.len() == DIGEST_LEN,
{
    match kind {
        ImplKind::Blake3Single => hash_blake3_single(buf),
        ImplKind::Blake3Parallel => hash_blake3_parallel(buf),
        ImplKind::Blake2b256 => hash_blake2b_256(buf),
        ImplKind::Blake2s256 => hash_blake2s_256(buf),
    }
}

} // verus!
