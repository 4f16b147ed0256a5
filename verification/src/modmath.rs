use vstd::prelude::*;

verus! {

use vstd::arithmetic::div_mod::{
    lemma_mod_twice, lemma_mul_mod_noop, lemma_mod_bound,
};
use vstd::arithmetic::power::{
    pow, lemma_pow0, lemma_pow1, lemma_pow_adds, lemma_pow_multiplies, lemma_square_is_pow2,
    lemma_pow_mod_noop,
};
use vstd::arithmetic::power2::pow2;
use vstd::arithmetic::mul::{lemma_mul_is_associative, lemma_mul_is_commutative};

/// Largest modulus the executable routines accept; keeps `a + b` inside `u64`.
pub const MOD_LIMIT: u64 = 0x4000_0000_0000_0000;

/// Modular addition of two reduced residues.
pub fn add_mod(a: u64, b: u64, m: u64) -> (r: u64)
    requires
        1 <= m <= MOD_LIMIT,
        a < m,
        b < m,
    ensures
        r == (a + b) % (m as int),
        r < m,
{
    (a + b) % m
}

/// Modular subtraction of two reduced residues.
pub fn sub_mod(a: u64, b: u64, m: u64) -> (r: u64)
    requires
        1 <= m <= MOD_LIMIT,
        a < m,
        b < m,
    ensures
        r == (a - b) % (m as int),
        r < m,
{
    let r = (a + m - b) % m;
    proof {
        lemma_mod_sub_multiple(a as int, b as int, m as int);
    }
    r
}

proof fn lemma_mod_sub_multiple(a: int, b: int, m: int)
    requires
        1 <= m,
        0 <= a < m,
        0 <= b < m,
    ensures
        (a + m - b) % m == (a - b) % m,
{
    vstd::arithmetic::div_mod::lemma_mod_add_multiples_vanish(a - b, m);
}

/// Modular multiplication of two reduced residues, through a 128-bit product.
pub fn mul_mod(a: u64, b: u64, m: u64) -> (r: u64)
    requires
        1 <= m,
        a < m,
        b < m,
    ensures
        r == (a * b) % (m as int),
        r < m,
{
    proof {
        assert((a as int) * (b as int) < 0x1_0000_0000_0000_0000_0000_0000_0000_0000)
            by (nonlinear_arith)
            requires
                a < 0x1_0000_0000_0000_0000,
                b < 0x1_0000_0000_0000_0000,
        ;
    }
    let prod: u128 = (a as u128) * (b as u128);
    let rm: u128 = prod % (m as u128);
    proof {
        lemma_mod_bound(prod as int, m as int);
    }
    rm as u64
}

/// Congruent factors yield congruent products.
proof fn lemma_mul_mod_congruent(x: int, y: int, x2: int, y2: int, m: int)
    requires
        1 <= m,
        x % m == x2 % m,
        y % m == y2 % m,
    ensures
        (x * y) % m == (x2 * y2) % m,
{
    lemma_mul_mod_noop(x, y, m);
    lemma_mul_mod_noop(x2, y2, m);
}

/// Modular exponentiation by square-and-multiply: `pow(base, exp) % m`.
///
/// The loop runs in the bit length of `exp`, which is what lets the puzzle
/// setter reduce a huge exponent quickly while solvers must square step by
/// step.
pub fn pow_mod(base: u64, exp: u64, m: u64) -> (r: u64)
    requires
        2 <= m <= MOD_LIMIT,
        base < m,
    ensures
        r == pow(base as int, exp as nat) % (m as int),
        r < m,
{
    let mut result: u64 = 1;
    let mut b: u64 = base;
    let mut e: u64 = exp;
    proof {
        lemma_pow0(base as int);
    }
    while e > 0
        invariant
            2 <= m <= MOD_LIMIT,
            result < m,
            b < m,
            (result * pow(b as int, e as nat)) % (m as int)
                == pow(base as int, exp as nat) % (m as int),
        decreases e,
    {
        let ghost r0 = result as int;
        let ghost b0 = b as int;
        let ghost e0 = e as nat;
        let ghost mi = m as int;
        let odd = e % 2 == 1;
        if odd {
            result = mul_mod(result, b, m);
        }
        b = mul_mod(b, b, m);
        e = e / 2;
        proof {
            let e1 = e as nat;
            let b1 = b as int;
            let r1 = result as int;
            // pow(b1, e1) is congruent to pow(b0, 2 * e1) modulo m.
            lemma_pow_mod_noop(b0 * b0, e1, mi);
            lemma_square_is_pow2(b0);
            lemma_pow_multiplies(b0, 2, e1);
            lemma_mod_twice(b0 * b0, mi);
            assert(pow(b1, e1) % mi == pow(b0, 2 * e1) % mi) by {
                assert(b1 == (b0 * b0) % mi);
                assert(pow((b0 * b0) % mi, e1) % mi == pow(b0 * b0, e1) % mi);
                assert(pow(b0 * b0, e1) == pow(pow(b0, 2), e1));
            }
            if odd {
                assert(e0 == 2 * e1 + 1);
                lemma_pow_adds(b0, (2 * e1) as nat, 1);
                lemma_pow1(b0);
                assert(pow(b0, e0) == pow(b0, 2 * e1) * b0);
                lemma_mod_twice(r0 * b0, mi);
                lemma_mul_mod_congruent(r1, pow(b1, e1), r0 * b0, pow(b0, 2 * e1), mi);
                assert(r0 * b0 * pow(b0, 2 * e1) == r0 * pow(b0, e0)) by {
                    lemma_mul_is_associative(r0, b0, pow(b0, 2 * e1));
                    lemma_mul_is_commutative(b0, pow(b0, 2 * e1));
                    lemma_mul_is_associative(r0, pow(b0, 2 * e1), b0);
                }
                assert((r1 * pow(b1, e1)) % mi == (r0 * pow(b0, e0)) % mi);
            } else {
                assert(e0 == 2 * e1);
                lemma_mod_twice(r0, mi);
                lemma_mul_mod_congruent(r1, pow(b1, e1), r0, pow(b0, 2 * e1), mi);
                assert((r1 * pow(b1, e1)) % mi == (r0 * pow(b0, e0)) % mi);
            }
        }
    }
    proof {
        lemma_pow0(b as int);
        assert(result * pow(b as int, 0) == result * 1);
        assert((result as int) % (m as int) == result) by {
            vstd::arithmetic::div_mod::lemma_small_mod(result as nat, m as nat);
        }
    }
    result
}

/// `k`-fold modular squaring of `s`: the sequential core of the time-lock
/// puzzle. Equal to `s^(2^k) % m`, but defined by the squaring chain itself,
/// which is the work a solver cannot shortcut.
pub open spec fn squarings(s: int, k: nat, m: int) -> int
    decreases k,
{
    if k == 0 {
        s % m
    } else {
        (squarings(s, (k - 1) as nat, m) * squarings(s, (k - 1) as nat, m)) % m
    }
}

/// Performs exactly `count` sequential modular squarings of `seed`.
pub fn square_chain(seed: u64, count: u64, m: u64) -> (r: u64)
    requires
        2 <= m,
        seed < m,
    ensures
        r == squarings(seed as int, count as nat, m as int),
        r < m,
{
    let mut x: u64 = seed;
    let mut i: u64 = 0;
    proof {
        vstd::arithmetic::div_mod::lemma_small_mod(seed as nat, m as nat);
    }
    while i < count
        invariant
            2 <= m,
            i <= count,
            x < m,
            x == squarings(seed as int, i as nat, m as int),
        decreases count - i,
    {
        x = mul_mod(x, x, m);
        i = i + 1;
    }
    x
}

/// Checked modular inverse: accepts the candidate `a^(m-2) % m` only after
/// confirming `a * r % m == 1`, so the postcondition never rests on `m`
/// being prime.
pub open spec fn inv_checked_spec(a: int, m: int) -> Option<int> {
    let v = pow(a, (m - 2) as nat) % m;
    if (a * v) % m == 1 {
        Some(v)
    } else {
        None
    }
}

/// Modular inverse with a runtime certificate.
pub fn inv_mod(a: u64, m: u64) -> (r: Option<u64>)
    requires
        3 <= m <= MOD_LIMIT,
        a < m,
    ensures
        r matches Some(v) ==> v < m && (a * v) % (m as int) == 1,
        r == match inv_checked_spec(a as int, m as int) {
            Some(v) => Some(v as u64),
            None => None::<u64>,
        },
{
    let v = pow_mod(a, m - 2, m);
    let check = mul_mod(a, v, m);
    if check == 1 {
        Some(v)
    } else {
        None
    }
}

} // verus!
