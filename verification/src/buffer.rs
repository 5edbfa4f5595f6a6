//! Deterministic input buffers.

use crate::selector::Pattern;
use vstd::prelude::*;

verus! {

/// Seed of the generator behind the random pattern. It never changes, so that
/// every run and every backend sees the same bytes.
pub const RANDOM_SEED: u64 = 0xDEAD_BEEF;

/// The bytes that `rand::rngs::StdRng`, seeded with `seed` through
/// `seed_from_u64`, hands out when asked to fill a slice of `len` bytes. In
/// the release of `rand` that this crate is built with the generator is
/// ChaCha with 12 rounds, and both the seed and the output are laid out in
/// little-endian order whatever the target, so the bytes are the same in
/// every process and on every machine.
pub uninterp spec fn std_rng_bytes(seed: u64, len: nat) -> Seq<u8>;

/// The 16 bytes that the repeat pattern cycles through: the ASCII codes of
/// `0` to `9` and `A` to `F`.
pub open spec fn cycle() -> Seq<u8> {
    seq![
        0x30u8, 0x31u8, 0x32u8, 0x33u8, 0x34u8, 0x35u8, 0x36u8, 0x37u8,
        0x38u8, 0x39u8, 0x41u8, 0x42u8, 0x43u8, 0x44u8, 0x45u8, 0x46u8,
    ]
}

/// The buffer of `len` bytes that a pattern stands for.
pub open spec fn pattern_bytes(len: nat, pattern: Pattern) -> Seq<u8> {
    match pattern {
        Pattern::Zero => Seq::new(len, |i: int| 0u8),
        Pattern::Repeat16 => Seq::new(len, |i: int| cycle()[i % 16]),
        Pattern::Random => std_rng_bytes(RANDOM_SEED, len),
    }
}

/// Trusted: seeds a `rand::rngs::StdRng` with `SeedableRng::seed_from_u64` and
/// lets `RngCore::fill_bytes` overwrite a slice of `len` bytes. The contract
/// claims that the bytes depend on the seed and the length alone, and that
/// there are `len` of them.
#[verifier::external_body]
fn seeded_bytes(seed: u64, len: usize) -> (out: Vec<u8>)
    ensures
        out@ == std_rng_bytes(seed, len as nat),
        out@.len() == len,
{
    let mut out = vec![0u8; len];
    let mut rng = <rand::rngs::StdRng as rand::SeedableRng>::seed_from_u64(seed);
    rand::RngCore::fill_bytes(&mut rng, &mut out);
    out
}

/// Builds the buffer of `len` bytes for `pattern`.
pub fn make_buf(len: usize, pattern: Pattern) -> (buf: Vec<u8>)
    ensures
        buf@ == pattern_bytes(len as nat, pattern),
        buf@.len() == len,
        pattern == Pattern::Zero ==> forall|i: int| 0 <= i < len ==> buf@[i] == 0u8,
        pattern == Pattern::Repeat16 ==> forall|i: int| 0 <= i < len ==> buf@[i] == cycle()[i % 16],
{
    match pattern {
        Pattern::Zero => {
            let mut v: Vec<u8> = Vec::new();
            let mut i: usize = 0;
            while i < len
                invariant
                    i <= len,
                    v@ == Seq::new(i as nat, |k: int| 0u8),
                decreases len - i,
            {
                v.push(0u8);
                i += 1;
            }
            v
        },
        Pattern::Repeat16 => {
            let base: [u8; 16] = [
                0x30, 0x31, 0x32, 0x33, 0x34, 0x35, 0x36, 0x37,
                0x38, 0x39, 0x41, 0x42, 0x43, 0x44, 0x45, 0x46,
            ];
            assert(base@ =~= cycle());
            let mut v: Vec<u8> = Vec::new();
            let mut i: usize = 0;
            while i < len
                invariant
                    i <= len,
                    base@ == cycle(),
                    v@ == Seq::new(i as nat, |k: int| cycle()[k % 16]),
                decreases len - i,
            {
                v.push(base[i % 16]);
                i += 1;
            }
            v
        },
        Pattern::Random => seeded_bytes(RANDOM_SEED, len),
    }
}

/// Two buffers made for the same length and pattern hold the same bytes.
pub proof fn lemma_generator_deterministic(
    len: nat,
    pattern: Pattern,
    first: Seq<u8>,
    second: Seq<u8>,
)
    requires
        first == pattern_bytes(len, pattern),
        second == pattern_bytes(len, pattern),
    ensures
        first == second,
{
}

/// The zero pattern holds nothing but zero bytes, at every length.
pub proof fn lemma_zero_pattern(len: nat, i: int)
    requires
        0 <= i < len,
    ensures
        pattern_bytes(len, Pattern::Zero).len() == len,
        pattern_bytes(len, Pattern::Zero)[i] == 0u8,
{
}

/// The repeat pattern walks through the 16 hexadecimal digits in upper case,
/// over and over.
pub proof fn lemma_repeat_pattern(len: nat, i: int)
    requires
        0 <= i < len,
    ensures
        pattern_bytes(len, Pattern::Repeat16).len() == len,
        pattern_bytes(len, Pattern::Repeat16)[i] == cycle()[i % 16],
        pattern_bytes(len, Pattern::Repeat16)[i] as char == "0123456789ABCDEF"@[i % 16],
{
    reveal_strlit("0123456789ABCDEF");
}

} // verus!
