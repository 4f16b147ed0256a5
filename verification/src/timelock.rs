use vstd::prelude::*;

verus! {

use vstd::arithmetic::power::pow;
use vstd::arithmetic::power2::{pow2, lemma_pow2_strictly_increases, lemma2_to64,
    lemma2_to64_rest};
use crate::bytes::{be_bytes_of, push_u64_be, lemma_xor_involutive};
use crate::errors::ShardError;
use crate::hashing::{sha256, sha256_of};
use crate::modmath::{pow_mod, square_chain, squarings, MOD_LIMIT};
use crate::randomness::draw_below;

/// Longest payload, in bytes, one puzzle locks.
pub const MAX_PAYLOAD_LEN: usize = 0xFFFF;

/// Steepest accepted difficulty: `2^40` squarings is already far beyond an
/// interactive solve.
pub const MAX_DIFFICULTY: u32 = 40;

/// The eight largest 31-bit primes; the puzzle modulus is a product of two
/// distinct ones, and their indices are the setter's trapdoor.
pub open spec fn table_prime(i: int) -> int {
    if i == 0 { 0x7FFFFFFF }
    else if i == 1 { 0x7FFFFFED }
    else if i == 2 { 0x7FFFFFC3 }
    else if i == 3 { 0x7FFFFFBB }
    else if i == 4 { 0x7FFFFFAB }
    else if i == 5 { 0x7FFFFF9D }
    else if i == 6 { 0x7FFFFF97 }
    else { 0x7FFFFF69 }
}

/// Returns the table prime for `i` in `[0, 8)`.
fn prime_at(i: u64) -> (r: u64)
    requires
        i < 8,
    ensures
        r == table_prime(i as int),
        0x7FFFFF69 <= r <= 0x7FFFFFFF,
{
    if i == 0 { 0x7FFFFFFF }
    else if i == 1 { 0x7FFFFFED }
    else if i == 2 { 0x7FFFFFC3 }
    else if i == 3 { 0x7FFFFFBB }
    else if i == 4 { 0x7FFFFFAB }
    else if i == 5 { 0x7FFFFF9D }
    else if i == 6 { 0x7FFFFF97 }
    else { 0x7FFFFF69 }
}

/// The public face of one locked puzzle: everything a solver holds.
pub struct PuzzleParams {
    /// Product of two distinct table primes; its factorization is the
    /// discarded trapdoor.
    pub modulus: u64,
    /// The blinding seed the solver must square sequentially.
    pub seed: u64,
    /// The iteration exponent: solving takes `2^difficulty` squarings.
    pub difficulty: u32,
    /// SHA-256 of the big-endian bytes of the solved value.
    pub verify_tag: Vec<u8>,
}

/// Byte `i` of the masking keystream derived from the solved puzzle value's
/// bytes: SHA-256 of those bytes followed by a 2-byte block counter.
pub open spec fn mask_byte(ybytes: Seq<u8>, i: int) -> u8 {
    sha256_of(ybytes + seq![((i / 32) / 256) as u8, ((i / 32) % 256) as u8])[i % 32]
}

/// XORs `data` with the keystream derived from `ybytes`.
#[verifier::loop_isolation(false)]
fn xor_mask(data: &[u8], ybytes: &Vec<u8>) -> (r: Vec<u8>)
    requires
        data@.len() <= MAX_PAYLOAD_LEN,
    ensures
        r@.len() == data@.len(),
        forall|i: int| 0 <= i < r@.len() ==> r@[i] == (data@[i] ^ mask_byte(ybytes@, i)),
{
    let n = data.len();
    let mut r: Vec<u8> = Vec::new();
    let mut block: Vec<u8> = Vec::new();
    let mut i: usize = 0;
    while i < n
        invariant
            i <= n,
            r@.len() == i,
            forall|j: int| 0 <= j < i ==> r@[j] == (data@[j] ^ mask_byte(ybytes@, j)),
            i % 32 != 0 ==> block@.len() == 32 && block@ == sha256_of(
                ybytes@ + seq![(((i as int) / 32) / 256) as u8, (((i as int) / 32) % 256) as u8],
            ),
        decreases n - i,
    {
        if i % 32 == 0 {
            let j = i / 32;
            let mut msg: Vec<u8> = Vec::new();
            let mut p: usize = 0;
            while p < ybytes.len()
                invariant
                    p <= ybytes@.len(),
                    msg@ == ybytes@.subrange(0, p as int),
                decreases ybytes@.len() - p,
            {
                msg.push(ybytes[p]);
                p = p + 1;
                proof {
                    assert(msg@ =~= ybytes@.subrange(0, p as int));
                }
            }
            proof {
                assert(msg@ =~= ybytes@);
            }
            msg.push(((j / 256) % 256) as u8);
            msg.push((j % 256) as u8);
            proof {
                assert((j / 256) % 256 == ((i as int) / 32) / 256) by {
                    assert(j == (i as int) / 32);
                    assert(j / 256 < 256);
                }
                assert(msg@ =~= ybytes@ + seq![
                    (((i as int) / 32) / 256) as u8,
                    (((i as int) / 32) % 256) as u8,
                ]);
            }
            block = sha256(msg.as_slice());
        }
        let m = block[i % 32];
        proof {
            assert(m == mask_byte(ybytes@, i as int));
        }
        r.push(data[i] ^ m);
        i = i + 1;
    }
    r
}

/// The solved value of a puzzle: the seed squared `2^difficulty` times.
pub open spec fn solved_value(params: PuzzleParams) -> int {
    squarings(params.seed as int, pow2(params.difficulty as nat), params.modulus as int)
}

/// What `lock` guarantees of its output, for the trapdoor `phi`: the tag
/// commits to the shortcut value `seed^(2^(2^difficulty) mod phi) mod
/// modulus`, and the blob is the payload XORed with that value's keystream.
pub open spec fn lock_rel(
    params: PuzzleParams,
    blob: Seq<u8>,
    payload: Seq<u8>,
    phi: int,
) -> bool {
    let e = pow(2, pow2(params.difficulty as nat)) % phi;
    let y = pow(params.seed as int, e as nat) % (params.modulus as int);
    &&& params.verify_tag@ == sha256_of(be_bytes_of(y as u64))
    &&& blob.len() == payload.len()
    &&& forall|i: int|
        0 <= i < blob.len() ==> blob[i] == (payload[i] ^ mask_byte(be_bytes_of(y as u64), i))
}

/// A locked blob and its parameters came from some pair of distinct table
/// primes whose product is the modulus, through the lock relation.
pub open spec fn locked_ok(params: PuzzleParams, blob: Seq<u8>, payload: Seq<u8>) -> bool {
    exists|pi: int, qi: int|
        0 <= pi < 8 && 0 <= qi < 8 && pi != qi && params.modulus == table_prime(pi) * table_prime(
            qi,
        ) && #[trigger] lock_rel(
            params,
            blob,
            payload,
            (table_prime(pi) - 1) * (table_prime(qi) - 1),
        )
}

/// What solving a puzzle yields, over plain values: the seed squared
/// `2^d` times must hash to the tag; the payload is then the blob XORed
/// with that value's keystream. Any violation fails closed.
pub open spec fn unlock_outcome_v(
    d: u32,
    modulus: u64,
    seed: u64,
    pdiff: u32,
    tag: Seq<u8>,
    blob: Seq<u8>,
) -> Result<Seq<u8>, ShardError> {
    if pdiff != d || modulus < 4 || modulus > MOD_LIMIT || seed < 2 || seed >= modulus
        || tag.len() != 32 || blob.len() > MAX_PAYLOAD_LEN {
        Err(ShardError::PuzzleVerificationFailed)
    } else {
        let y = squarings(seed as int, pow2(d as nat), modulus as int);
        if sha256_of(be_bytes_of(y as u64)) != tag {
            Err(ShardError::PuzzleVerificationFailed)
        } else {
            Ok(Seq::new(blob.len(), |i: int| blob[i] ^ mask_byte(be_bytes_of(y as u64), i)))
        }
    }
}

/// The sequential-squaring time-lock puzzle with a trapdoor-based fast
/// lock path.
pub struct LCS35 {
    /// The iteration exponent this puzzle issues and solves.
    pub difficulty: u32,
    /// `2^difficulty`: the squarings one solve performs.
    pub iterations: u64,
}

impl LCS35 {
    /// The configuration is well formed: the iteration count is exactly
    /// `2^difficulty`.
    pub open spec fn wf(&self) -> bool {
        &&& self.difficulty <= MAX_DIFFICULTY
        &&& self.iterations == pow2(self.difficulty as nat)
    }

    pub open spec fn spec_difficulty(&self) -> u32 {
        self.difficulty
    }

    /// Builds a puzzle configuration whose solve cost is `2^difficulty`
    /// sequential squarings.
    pub fn new(difficulty: u32) -> (r: LCS35)
        requires
            difficulty <= MAX_DIFFICULTY,
        ensures
            r.wf(),
            r.spec_difficulty() == difficulty,
    {
        let mut it: u64 = 1;
        let mut i: u32 = 0;
        proof {
            lemma2_to64();
        }
        while i < difficulty
            invariant
                i <= difficulty,
                difficulty <= MAX_DIFFICULTY,
                it == pow2(i as nat),
            decreases difficulty - i,
        {
            proof {
                lemma2_to64();
                lemma2_to64_rest();
                if (i as nat) < 40 {
                    lemma_pow2_strictly_increases(i as nat, 40);
                    assert(pow2(40) == 0x10000000000);
                }
            }
            it = it * 2;
            i = i + 1;
            proof {
                assert(pow2(i as nat) == 2 * pow2((i - 1) as nat)) by {
                    lemma2_to64();
                    vstd::arithmetic::power2::lemma_pow2_adds(1, (i - 1) as nat);
                    assert(pow2(1) == 2);
                }
            }
        }
        LCS35 { difficulty, iterations: it }
    }

    /// The number of sequential squarings a solver must perform.
    pub fn iterations(&self) -> (r: u64)
        requires
            self.wf(),
        ensures
            r == pow2(self.spec_difficulty() as nat),
    {
        self.iterations
    }

    /// Locks `payload` behind a fresh puzzle: picks two secret table
    /// primes, reduces the huge exponent `2^(2^difficulty)` modulo the
    /// trapdoor `phi`, computes the blind quickly, commits to it in the
    /// verification tag, and masks the payload. The trapdoor is discarded
    /// on return.
    pub fn lock(&self, payload: &[u8], rng: &mut rand_chacha::ChaCha20Rng) -> (r: (
        PuzzleParams,
        Vec<u8>,
    ))
        requires
            self.wf(),
            payload@.len() <= MAX_PAYLOAD_LEN,
        ensures
            r.0.difficulty == self.spec_difficulty(),
            2 <= r.0.seed < r.0.modulus,
            4 < r.0.modulus <= MOD_LIMIT,
            r.0.verify_tag@.len() == 32,
            r.1@.len() == payload@.len(),
            locked_ok(r.0, r.1@, payload@),
    {
        let pi = draw_below(rng, 8);
        let qi0 = draw_below(rng, 8);
        let qi = if qi0 == pi {
            (qi0 + 1) % 8
        } else {
            qi0
        };
        let p = prime_at(pi);
        let q = prime_at(qi);
        proof {
            assert((p as int) * (q as int) <= MOD_LIMIT && (p as int) * (q as int)
                > 0x1000000000000000) by (nonlinear_arith)
                requires
                    0x7FFFF000 <= p <= 0x80000000,
                    0x7FFFF000 <= q <= 0x80000000,
            ;
            assert(((p - 1) as int) * ((q - 1) as int) <= MOD_LIMIT && ((p - 1) as int) * ((q
                - 1) as int) > 0x1000000000000000) by (nonlinear_arith)
                requires
                    0x7FFFF000 <= p <= 0x80000000,
                    0x7FFFF000 <= q <= 0x80000000,
            ;
        }
        let n: u64 = p * q;
        let phi: u64 = (p - 1) * (q - 1);
        let seed: u64 = draw_below(rng, n - 3) + 2;
        let e = pow_mod(2, self.iterations, phi);
        let y = pow_mod(seed, e, n);
        let mut ybytes: Vec<u8> = Vec::new();
        push_u64_be(&mut ybytes, y);
        let tag = sha256(ybytes.as_slice());
        let blob = xor_mask(payload, &ybytes);
        let params = PuzzleParams {
            modulus: n,
            seed,
            difficulty: self.difficulty,
            verify_tag: tag,
        };
        proof {
            let phii = (table_prime(pi as int) - 1) * (table_prime(qi as int) - 1);
            assert(phii == phi);
            let ee = pow(2, pow2(params.difficulty as nat)) % phii;
            assert(e == ee);
            let yy = pow(params.seed as int, ee as nat) % (params.modulus as int);
            assert(y == yy);
            assert(ybytes@ == be_bytes_of(y));
            assert(locked_ok(params, blob@, payload@)) by {
                assert((pi as int) < 8 && (qi as int) < 8 && pi as int != qi as int);
                assert(params.modulus == table_prime(pi as int) * table_prime(qi as int));
                assert(lock_rel(
                    params,
                    blob@,
                    payload@,
                    (table_prime(pi as int) - 1) * (table_prime(qi as int) - 1),
                ));
            }
        }
        (params, blob)
    }

    /// What `unlock` returns for the given puzzle and blob: the full
    /// sequential-squaring solve, checked against the verification tag,
    /// then the unmasked payload. Fails closed on any mismatch.
    pub open spec fn unlock_outcome(&self, params: PuzzleParams, blob: Seq<u8>) -> Result<
        Seq<u8>,
        ShardError,
    > {
        unlock_outcome_v(
            self.spec_difficulty(),
            params.modulus,
            params.seed,
            params.difficulty,
            params.verify_tag@,
            blob,
        )
    }

    /// Solves the puzzle by `2^difficulty` sequential modular squarings —
    /// no shortcut exists without the discarded trapdoor — verifies the
    /// solved value against the tag, and unmasks the payload. Also returns
    /// the number of squarings performed, which is exactly
    /// `2^difficulty`.
    #[verifier::loop_isolation(false)]
    pub fn unlock(&self, params: &PuzzleParams, blob: &[u8]) -> (r: Result<
        (Vec<u8>, u64),
        ShardError,
    >)
        requires
            self.wf(),
        ensures
            r matches Ok(p) ==> self.unlock_outcome(*params, blob@) == Ok::<Seq<u8>, ShardError>(
                p.0@,
            ) && p.1 == pow2(self.spec_difficulty() as nat),
            r matches Err(e) ==> self.unlock_outcome(*params, blob@) == Err::<Seq<u8>, ShardError>(
                e,
            ),
    {
        if params.difficulty != self.difficulty || params.modulus < 4 || params.modulus
            > MOD_LIMIT || params.seed < 2 || params.seed >= params.modulus
            || params.verify_tag.len() != 32 || blob.len() > MAX_PAYLOAD_LEN {
            return Err(ShardError::PuzzleVerificationFailed);
        }
        let steps = self.iterations;
        let y = square_chain(params.seed, steps, params.modulus);
        let mut ybytes: Vec<u8> = Vec::new();
        push_u64_be(&mut ybytes, y);
        let tag = sha256(ybytes.as_slice());
        proof {
            assert(y == solved_value(*params));
            assert(tag@ == sha256_of(be_bytes_of(y)));
        }
        let mut i: usize = 0;
        let mut same = true;
        while i < 32
            invariant
                i <= 32,
                tag@.len() == 32,
                params.verify_tag@.len() == 32,
                same ==> forall|j: int| 0 <= j < i ==> tag@[j] == params.verify_tag@[j],
                !same ==> tag@ != params.verify_tag@,
            decreases 32 - i,
        {
            if tag[i] != params.verify_tag[i] {
                same = false;
            }
            i = i + 1;
        }
        if !same {
            return Err(ShardError::PuzzleVerificationFailed);
        }
        proof {
            assert(tag@ =~= params.verify_tag@);
        }
        let payload = xor_mask(blob, &ybytes);
        proof {
            assert(payload@ =~= Seq::new(
                blob@.len(),
                |i: int| blob@[i] ^ mask_byte(be_bytes_of(y), i),
            ));
        }
        Ok((payload, steps))
    }
}

/// Unmasking with the same keystream restores the locked payload byte for
/// byte: the puzzle layer loses no information.
pub proof fn lemma_mask_round_trip(payload: Seq<u8>, ybytes: Seq<u8>, i: int)
    requires
        0 <= i < payload.len(),
    ensures
        ((payload[i] ^ mask_byte(ybytes, i)) ^ mask_byte(ybytes, i)) == payload[i],
{
    lemma_xor_involutive(payload[i], mask_byte(ybytes, i));
}

} // verus!
