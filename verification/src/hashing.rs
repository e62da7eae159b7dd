//! Deterministic hashing support: big-endian integer encoding, the SHA-256
//! digest of a byte sequence, and the proof-of-work difficulty predicate.

use sha2::Digest;
use vstd::prelude::*;

verus! {

/// The eight bytes of a `u64`, big-endian.
pub open spec fn u64_be_bytes(x: u64) -> Seq<u8> {
    seq![
        ((x >> 56) & 0xff) as u8,
        ((x >> 48) & 0xff) as u8,
        ((x >> 40) & 0xff) as u8,
        ((x >> 32) & 0xff) as u8,
        ((x >> 24) & 0xff) as u8,
        ((x >> 16) & 0xff) as u8,
        ((x >> 8) & 0xff) as u8,
        (x & 0xff) as u8,
    ]
}

/// Appends the eight big-endian bytes of `x` to `out`.
pub fn push_u64_be(out: &mut Vec<u8>, x: u64)
    ensures
        final(out)@ == old(out)@ + u64_be_bytes(x),
{
    out.push(((x >> 56) & 0xff) as u8);
    out.push(((x >> 48) & 0xff) as u8);
    out.push(((x >> 40) & 0xff) as u8);
    out.push(((x >> 32) & 0xff) as u8);
    out.push(((x >> 24) & 0xff) as u8);
    out.push(((x >> 16) & 0xff) as u8);
    out.push(((x >> 8) & 0xff) as u8);
    out.push((x & 0xff) as u8);
    assert(out@ =~= old(out)@ + u64_be_bytes(x));
}

/// The digest that SHA-256 assigns to a byte sequence.
pub uninterp spec fn sha256_of(input: Seq<u8>) -> Seq<u8>;

/// Relies on `sha2::Sha256` (`update` then `finalize`): the digest is a pure
/// function of the input bytes and is 32 bytes long.
#[verifier::external_body]
pub fn sha256(input: &Vec<u8>) -> (r: Vec<u8>)
    ensures
        r@ == sha256_of(input@),
        r@.len() == 32,
{
    let mut hasher = sha2::Sha256::new();
    hasher.update(input.as_slice());
    hasher.finalize().to_vec()
}

/// Bit `i` of a digest (most significant bit first) is zero.
pub open spec fn bit_zero(d: Seq<u8>, i: int) -> bool {
    (d[i / 8] >> ((7 - (i % 8)) as u8)) & 1 == 0
}

/// The proof-of-work difficulty predicate: the digest's first `difficulty`
/// bits are all zero. Increasing `difficulty` strictly shrinks the set of
/// digests accepted.
pub open spec fn digest_meets(d: Seq<u8>, difficulty: u64) -> bool {
    &&& difficulty <= 8 * d.len()
    &&& forall|i: int| 0 <= i < difficulty ==> bit_zero(d, i)
}

/// Decides the difficulty predicate on an actual digest.
pub fn meets_difficulty(d: &Vec<u8>, difficulty: u64) -> (r: bool)
    ensures
        r == digest_meets(d@, difficulty),
{
    let mut i: u64 = 0;
    while i < difficulty
        invariant
            i <= difficulty,
            i <= 8 * d@.len(),
            forall|j: int| 0 <= j < i ==> bit_zero(d@, j),
        decreases difficulty - i,
    {
        let byte_pos: u64 = i / 8;
        proof {
            vstd::arithmetic::div_mod::lemma_fundamental_div_mod(i as int, 8);
            assert(i as int == 8 * (i as int / 8) + (i as int % 8));
        }
        if byte_pos >= d.len() as u64 {
            proof {
                assert(i as int / 8 >= d@.len());
                assert(8 * (i as int / 8) >= 8 * d@.len());
                assert(difficulty > 8 * d@.len());
            }
            return false;
        }
        let byte: u8 = d[byte_pos as usize];
        let shift: u8 = (7 - (i % 8)) as u8;
        if (byte >> shift) & 1 != 0 {
            proof {
                assert(!bit_zero(d@, i as int));
            }
            return false;
        }
        proof {
            assert(bit_zero(d@, i as int));
            assert(i as int / 8 <= d@.len() - 1);
            assert(8 * (i as int / 8) <= 8 * (d@.len() - 1));
            assert(i as int + 1 <= 8 * d@.len());
        }
        i = i + 1;
    }
    true
}

/// Raising the difficulty only shrinks the set of digests accepted: a digest
/// meeting a difficulty meets every lower one.
pub proof fn lemma_difficulty_monotonic(d: Seq<u8>, lo: u64, hi: u64)
    requires
        lo <= hi,
        digest_meets(d, hi),
    ensures
        digest_meets(d, lo),
{
}

} // verus!
