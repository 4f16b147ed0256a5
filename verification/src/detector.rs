use vstd::prelude::*;

verus! {

use vstd::arithmetic::power2::{pow2, lemma2_to64, lemma_pow2_adds};

/// Longest sample, in bytes, the statistical tests accept.
pub const MAX_SAMPLE_LEN: usize = 0xFFFF;

/// One step of the shift-and-square binary-logarithm iteration on a Q32
/// mantissa in `[1, 2)`: square, renormalize, and emit the next fraction
/// bit.
pub open spec fn frac_step(m: int) -> (int, int) {
    let m2 = (m * m) / 0x100000000;
    if m2 >= 0x200000000 {
        (m2 / 2, 1)
    } else {
        (m2, 0)
    }
}

/// Ten fraction bits of the binary logarithm of the Q32 mantissa `m`.
pub open spec fn frac10(m: int) -> int {
    let (m1, b1) = frac_step(m);
    let (m2, b2) = frac_step(m1);
    let (m3, b3) = frac_step(m2);
    let (m4, b4) = frac_step(m3);
    let (m5, b5) = frac_step(m4);
    let (m6, b6) = frac_step(m5);
    let (m7, b7) = frac_step(m6);
    let (m8, b8) = frac_step(m7);
    let (m9, b9) = frac_step(m8);
    let (m10, b10) = frac_step(m9);
    b1 * 512 + b2 * 256 + b3 * 128 + b4 * 64 + b5 * 32 + b6 * 16 + b7 * 8 + b8 * 4 + b9 * 2 + b10
}

/// Normalizes a value into `[2^32, 2^33)` by halving, returning the
/// mantissa and the number of halvings.
pub open spec fn log2_norm(m: nat) -> (nat, nat)
    decreases m,
{
    if m < 0x200000000 {
        (m, 0)
    } else {
        let (m2, k) = log2_norm((m / 2) as nat);
        (m2, k + 1)
    }
}

/// The binary logarithm of `x` in units of 1/1024 bit, computed by
/// normalizing `x * 2^32` and extracting ten fraction bits. Exact on powers
/// of two; elsewhere it underestimates by less than one unit step.
pub open spec fn log2_q10_of(x: nat) -> int {
    if x == 0 {
        0
    } else {
        let (m, k) = log2_norm((x * 0x100000000) as nat);
        k * 1024 + frac10(m as int)
    }
}

/// Few enough halvings remain once the value is below `2^(33 + j)`.
proof fn lemma_log2_norm_bound(m: nat, j: nat)
    requires
        m < pow2((33 + j) as nat),
    ensures
        log2_norm(m).1 <= j,
    decreases j,
{
    lemma2_to64();
    vstd::arithmetic::power2::lemma2_to64_rest();
    if m < 0x200000000 {
    } else {
        assert(j >= 1) by {
            if j == 0 {
                assert(pow2(33) == 0x200000000);
            }
        }
        assert(pow2(33 + j) == 2 * pow2(33 + (j - 1) as nat)) by {
            lemma_pow2_adds(1, (32 + j) as nat);
            assert(pow2(1) == 2);
        }
        lemma_log2_norm_bound((m / 2) as nat, (j - 1) as nat);
    }
}

/// One executable shift-and-square step.
fn frac_step_x(m: u64) -> (r: (u64, u64))
    requires
        0x100000000 <= m < 0x200000000,
    ensures
        ({
            let (sm, sb) = frac_step(m as int);
            r.0 == sm && r.1 == sb && 0x100000000 <= r.0 < 0x200000000 && r.1 <= 1
        }),
{
    proof {
        assert((m as int) * (m as int) < 0x40000000000000000 && (m as int) * (m as int)
            >= 0x10000000000000000) by (nonlinear_arith)
            requires
                0x100000000 <= m < 0x200000000,
        ;
    }
    let mm: u128 = (m as u128) * (m as u128);
    let m2: u128 = mm / 0x100000000;
    proof {
        assert(m2 < 0x400000000);
        assert(m2 >= 0x100000000);
    }
    if m2 >= 0x200000000 {
        ((m2 / 2) as u64, 1)
    } else {
        (m2 as u64, 0)
    }
}

/// The binary logarithm of `x` in units of 1/1024 bit.
pub fn log2_q10(x: u64) -> (r: u64)
    requires
        1 <= x <= MAX_SAMPLE_LEN * 16,
    ensures
        r == log2_q10_of(x as nat),
        r < 21 * 1024,
{
    let ghost big: nat = (x * 0x100000000) as nat;
    proof {
        assert(big < pow2(53)) by {
            lemma2_to64();
            vstd::arithmetic::power2::lemma2_to64_rest();
            assert(pow2(53) == 0x20000000000000);
        }
        lemma_log2_norm_bound(big, 20);
    }
    let mut m: u128 = (x as u128) * 0x100000000;
    let mut k: u64 = 0;
    while m >= 0x200000000
        invariant
            0x100000000 <= m,
            log2_norm(big).0 == log2_norm(m as nat).0,
            log2_norm(big).1 == log2_norm(m as nat).1 + k,
            log2_norm(big).1 <= 20,
            k <= 20,
        decreases m,
    {
        m = m / 2;
        k = k + 1;
    }
    proof {
        assert(log2_norm(m as nat) == (m as nat, 0nat));
        assert(k == log2_norm(big).1);
        assert(k <= 20);
    }
    let m64: u64 = m as u64;
    let (m1, b1) = frac_step_x(m64);
    let (m2, b2) = frac_step_x(m1);
    let (m3, b3) = frac_step_x(m2);
    let (m4, b4) = frac_step_x(m3);
    let (m5, b5) = frac_step_x(m4);
    let (m6, b6) = frac_step_x(m5);
    let (m7, b7) = frac_step_x(m6);
    let (m8, b8) = frac_step_x(m7);
    let (m9, b9) = frac_step_x(m8);
    let (_m10, b10) = frac_step_x(m9);
    let f: u64 = b1 * 512 + b2 * 256 + b3 * 128 + b4 * 64 + b5 * 32 + b6 * 16 + b7 * 8 + b8 * 4
        + b9 * 2 + b10;
    proof {
        assert(f == frac10(m64 as int));
    }
    k * 1024 + f
}

/// How often byte `b` occurs in the first `i` bytes of `data`.
pub open spec fn count_pref(data: Seq<u8>, b: u8, i: int) -> int
    decreases i,
{
    if i <= 0 {
        0
    } else {
        count_pref(data, b, i - 1) + if data[i - 1] == b {
            1int
        } else {
            0int
        }
    }
}

pub open spec fn count_of(data: Seq<u8>, b: u8) -> int {
    count_pref(data, b, data.len() as int)
}

/// The clamped logarithm gap between the sample length and a byte count.
pub open spec fn l2_gap(len: nat, c: nat) -> int {
    if log2_q10_of(len) >= log2_q10_of(c) {
        log2_q10_of(len) - log2_q10_of(c)
    } else {
        0
    }
}

/// The entropy sum from byte value `b` upward: each occurring byte value
/// contributes its count times its logarithm gap.
pub open spec fn ent_sum(data: Seq<u8>, b: int) -> int
    decreases 256 - b,
{
    if b < 0 || b >= 256 {
        0
    } else {
        let c = count_of(data, b as u8);
        (if c > 0 {
            c * l2_gap(data.len(), c as nat)
        } else {
            0int
        }) + ent_sum(data, b + 1)
    }
}

/// Shannon entropy of the sample in units of 1/1024 bit per byte, rounded
/// down: `(1/len) * sum over occurring byte values of count * (log2(len) -
/// log2(count))`.
pub open spec fn entropy_q10_of(data: Seq<u8>) -> int {
    ent_sum(data, 0) / (data.len() as int)
}

/// Computes the per-byte Shannon entropy of `data` in 1/1024-bit units.
///
/// Constant data scores 0; uniformly random data of a few hundred bytes or
/// more approaches `8 * 1024`.
#[verifier::loop_isolation(false)]
pub fn entropy_q10(data: &[u8]) -> (r: u64)
    requires
        1 <= data@.len() <= MAX_SAMPLE_LEN,
    ensures
        r == entropy_q10_of(data@),
{
    let n = data.len();
    let mut counts: Vec<u64> = Vec::new();
    let mut b: usize = 0;
    while b < 256
        invariant
            b <= 256,
            counts@.len() == b,
            forall|j: int| 0 <= j < b ==> counts@[j] == 0,
        decreases 256 - b,
    {
        counts.push(0);
        b = b + 1;
    }
    let mut i: usize = 0;
    while i < n
        invariant
            i <= n,
            counts@.len() == 256,
            forall|bb: int| 0 <= bb < 256 ==> counts@[bb] == count_pref(data@, bb as u8, i as int),
            forall|bb: int| 0 <= bb < 256 ==> counts@[bb] <= i,
        decreases n - i,
    {
        let v = data[i] as usize;
        let cur = counts[v];
        counts[v] = cur + 1;
        i = i + 1;
    }
    let l2len = log2_q10(n as u64);
    let mut sum: u64 = 0;
    let mut b2: usize = 0;
    while b2 < 256
        invariant
            b2 <= 256,
            counts@.len() == 256,
            forall|bb: int| 0 <= bb < 256 ==> counts@[bb] == count_of(data@, bb as u8),
            forall|bb: int| 0 <= bb < 256 ==> counts@[bb] <= n,
            l2len == log2_q10_of(n as nat),
            l2len < 21 * 1024,
            sum + ent_sum(data@, b2 as int) == ent_sum(data@, 0),
            sum <= b2 * (MAX_SAMPLE_LEN as int) * 21 * 1024,
        decreases 256 - b2,
    {
        let c = counts[b2];
        if c > 0 {
            let l2c = log2_q10(c);
            let gap: u64 = if l2len >= l2c {
                l2len - l2c
            } else {
                0
            };
            proof {
                assert(gap == l2_gap(data@.len(), c as nat));
                assert(c * gap <= (MAX_SAMPLE_LEN as int) * 21 * 1024) by (nonlinear_arith)
                    requires
                        c <= MAX_SAMPLE_LEN,
                        gap < 21 * 1024,
                ;
            }
            sum = sum + c * gap;
        }
        b2 = b2 + 1;
    }
    sum / (n as u64)
}

/// Number of set bits in a byte.
pub open spec fn byte_ones(b: u8) -> int {
    (b as int) % 2 + ((b as int) / 2) % 2 + ((b as int) / 4) % 2 + ((b as int) / 8) % 2 + ((
    b as int) / 16) % 2 + ((b as int) / 32) % 2 + ((b as int) / 64) % 2 + ((b as int) / 128) % 2
}

/// Set bits in the first `i` bytes of `data`.
pub open spec fn ones_pref(data: Seq<u8>, i: int) -> int
    decreases i,
{
    if i <= 0 {
        0
    } else {
        ones_pref(data, i - 1) + byte_ones(data[i - 1])
    }
}

/// The bidirectional binomial bias test. With `n` bits and `ones` set bits,
/// the deviation `d = 2*ones - n` has standard deviation `sqrt(n)` under
/// fair-coin randomness. The sample is suspicious when `|d| > 4` standard
/// deviations (implausibly skewed) or `|d| < sqrt(n)/32` (implausibly
/// close to a perfect balance, which true randomness rarely achieves).
/// Both comparisons are made on squares, so no square root is needed.
pub open spec fn bias_suspicious_of(data: Seq<u8>) -> bool {
    let n = 8 * data.len() as int;
    let d = 2 * ones_pref(data, data.len() as int) - n;
    d * d > 16 * n || 1024 * (d * d) < n
}

/// Runs the bias test on the sample's bits.
#[verifier::loop_isolation(false)]
pub fn bias_suspicious(data: &[u8]) -> (r: bool)
    requires
        1 <= data@.len() <= MAX_SAMPLE_LEN,
    ensures
        r == bias_suspicious_of(data@),
{
    let n = data.len();
    let mut ones: u64 = 0;
    let mut i: usize = 0;
    while i < n
        invariant
            i <= n,
            ones == ones_pref(data@, i as int),
            ones <= 8 * i,
        decreases n - i,
    {
        let b = data[i] as u64;
        ones = ones + (b % 2 + (b / 2) % 2 + (b / 4) % 2 + (b / 8) % 2 + (b / 16) % 2 + (b / 32)
            % 2 + (b / 64) % 2 + (b / 128) % 2);
        i = i + 1;
    }
    let bits: u64 = 8 * (n as u64);
    let s: u64 = 2 * ones;
    let d: u64 = if s >= bits {
        s - bits
    } else {
        bits - s
    };
    proof {
        let di = 2 * ones_pref(data@, data@.len() as int) - 8 * data@.len();
        assert((d as int) * (d as int) == di * di) by (nonlinear_arith)
            requires
                d == if di >= 0 {
                    di
                } else {
                    -di
                },
        ;
        assert(d <= 8 * MAX_SAMPLE_LEN);
        assert((d as int) * (d as int) <= 274877906944) by (nonlinear_arith)
            requires
                0 <= d <= 524280,
        ;
        assert((d as int) * (d as int) == di * di);
    }
    let d2: u64 = d * d;
    proof {
        let n_spec = 8 * data@.len() as int;
        let di = 2 * ones_pref(data@, data@.len() as int) - n_spec;
        assert(d2 == di * di);
        assert(bits == n_spec);
    }
    let rr = d2 > 16 * bits || 1024 * d2 < bits;
    proof {
        let n_spec = 8 * data@.len() as int;
        let di = 2 * ones_pref(data@, data@.len() as int) - n_spec;
        assert((d2 > 16 * bits) == (di * di > 16 * n_spec));
        assert((1024 * d2 < bits) == (1024 * (di * di) < n_spec));
        assert(rr == bias_suspicious_of(data@));
    }
    rr
}

/// The verdict of the statistical screen.
#[derive(Clone, Copy, Debug, PartialEq, Eq, Structural)]
pub enum Validation {
    /// The sample shows no screened regularity.
    Accept,
    /// The sample's entropy fell below the floor.
    RejectLowEntropy,
    /// The sample's bit balance is statistically implausible.
    RejectBiased,
}

/// Screens raw share bytes: rejects entropy below `floor_q10` (in
/// 1/1024-bit units), then statistically implausible bit bias.
pub fn validate_share_bytes(data: &[u8], floor_q10: u64) -> (r: Validation)
    requires
        1 <= data@.len() <= MAX_SAMPLE_LEN,
    ensures
        r == (if entropy_q10_of(data@) < floor_q10 {
            Validation::RejectLowEntropy
        } else if bias_suspicious_of(data@) {
            Validation::RejectBiased
        } else {
            Validation::Accept
        }),
{
    let e = entropy_q10(data);
    if e < floor_q10 {
        Validation::RejectLowEntropy
    } else if bias_suspicious(data) {
        Validation::RejectBiased
    } else {
        Validation::Accept
    }
}

/// Constant data carries no entropy: a buffer of one repeated byte value
/// scores exactly zero.
pub proof fn lemma_constant_entropy_zero(data: Seq<u8>, v: u8)
    requires
        data.len() >= 1,
        forall|i: int| 0 <= i < data.len() ==> data[i] == v,
    ensures
        entropy_q10_of(data) == 0,
{
    lemma_ent_sum_const(data, v, 0);
}

/// Byte counts in constant data: the repeated value occurs `i` times in
/// any prefix of length `i`, every other value never.
proof fn lemma_count_pref_const(data: Seq<u8>, v: u8, b: u8, i: int)
    requires
        forall|j: int| 0 <= j < data.len() ==> data[j] == v,
        0 <= i <= data.len(),
    ensures
        count_pref(data, b, i) == if b == v {
            i
        } else {
            0
        },
    decreases i,
{
    if i > 0 {
        lemma_count_pref_const(data, v, b, i - 1);
    }
}

/// Every term of the entropy sum vanishes on constant data.
proof fn lemma_ent_sum_const(data: Seq<u8>, v: u8, b: int)
    requires
        data.len() >= 1,
        forall|j: int| 0 <= j < data.len() ==> data[j] == v,
        0 <= b <= 256,
    ensures
        ent_sum(data, b) == 0,
    decreases 256 - b,
{
    if b < 256 {
        lemma_count_pref_const(data, v, b as u8, data.len() as int);
        lemma_ent_sum_const(data, v, b + 1);
        if b == v {
            assert(count_of(data, b as u8) == data.len());
            assert(l2_gap(data.len(), data.len()) == 0);
        }
    }
}

} // verus!
