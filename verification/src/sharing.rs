use vstd::prelude::*;

verus! {

use crate::errors::ShardError;
use crate::modmath::{add_mod, mul_mod, sub_mod, inv_mod, inv_checked_spec, MOD_LIMIT};
use crate::randomness::draw_below;

/// The prime 2^61 - 1; every share value is a residue below it.
pub const FIELD_P: u64 = 0x1FFF_FFFF_FFFF_FFFF;

/// Longest secret, in bytes, the sharing functions accept.
pub const MAX_SECRET_LEN: usize = 4096;

/// f(x) mod P for the polynomial with the given coefficients, constant term
/// first.
pub open spec fn poly_eval(coeffs: Seq<u64>, x: int) -> int
    decreases coeffs.len(),
{
    if coeffs.len() == 0 {
        0
    } else {
        (coeffs[0] + x * poly_eval(coeffs.subrange(1, coeffs.len() as int), x)) % (FIELD_P as int)
    }
}

/// Evaluates the polynomial at `x` by Horner's rule.
pub fn eval_poly(coeffs: &Vec<u64>, x: u64) -> (r: u64)
    requires
        x < FIELD_P,
        forall|i: int| 0 <= i < coeffs@.len() ==> coeffs@[i] < FIELD_P,
    ensures
        r == poly_eval(coeffs@, x as int),
        r < FIELD_P,
{
    let mut acc: u64 = 0;
    let mut i: usize = coeffs.len();
    proof {
        assert(coeffs@.subrange(i as int, coeffs@.len() as int) =~= Seq::<u64>::empty());
    }
    while i > 0
        invariant
            i <= coeffs@.len(),
            x < FIELD_P,
            forall|j: int| 0 <= j < coeffs@.len() ==> coeffs@[j] < FIELD_P,
            acc < FIELD_P,
            acc == poly_eval(coeffs@.subrange(i as int, coeffs@.len() as int), x as int),
        decreases i,
    {
        i = i - 1;
        let m = mul_mod(x, acc, FIELD_P);
        acc = add_mod(coeffs[i], m, FIELD_P);
        proof {
            let tail = coeffs@.subrange(i as int + 1, coeffs@.len() as int);
            let cur = coeffs@.subrange(i as int, coeffs@.len() as int);
            assert(cur[0] == coeffs@[i as int]);
            assert(cur.subrange(1, cur.len() as int) =~= tail);
        }
    }
    proof {
        assert(coeffs@.subrange(0, coeffs@.len() as int) =~= coeffs@);
    }
    acc
}

/// A coefficient matrix carrying one degree-`t-1` polynomial per secret
/// byte, whose constant terms spell the secret.
pub open spec fn coeffs_for_secret(secret: Seq<u8>, t: nat, cm: Seq<Seq<u64>>) -> bool {
    &&& cm.len() == secret.len()
    &&& forall|k: int| 0 <= k < cm.len() ==> (#[trigger] cm[k]).len() == t
    &&& forall|k: int| 0 <= k < cm.len() ==> (#[trigger] cm[k])[0] == secret[k]
    &&& forall|k: int, j: int|
        0 <= k < cm.len() && 0 <= j < t ==> (#[trigger] cm[k][j]) < FIELD_P
}

/// Share rows are exactly the per-byte polynomial evaluations at x = i + 1.
pub open spec fn rows_are_evaluations(cm: Seq<Seq<u64>>, rows: Seq<Seq<u64>>, n: nat) -> bool {
    &&& rows.len() == n
    &&& forall|i: int| 0 <= i < rows.len() ==> (#[trigger] rows[i]).len() == cm.len()
    &&& forall|i: int, k: int|
        0 <= i < rows.len() && 0 <= k < cm.len() ==> (#[trigger] rows[i][k]) == poly_eval(
            cm[k],
            i + 1,
        )
}

pub open spec fn row_views(v: Seq<Vec<u64>>) -> Seq<Seq<u64>> {
    Seq::new(v.len(), |i: int| v[i]@)
}

/// Draws the `t` coefficients of one byte's polynomial: the secret byte,
/// then `t - 1` random residues.
fn draw_coeffs(c0: u64, t: u8, rng: &mut rand_chacha::ChaCha20Rng) -> (r: Vec<u64>)
    requires
        c0 < FIELD_P,
        t >= 1,
    ensures
        r@.len() == t,
        r@[0] == c0,
        forall|i: int| 0 <= i < r@.len() ==> r@[i] < FIELD_P,
{
    let mut r: Vec<u64> = Vec::new();
    r.push(c0);
    let mut i: usize = 1;
    while i < t as usize
        invariant
            1 <= i <= t,
            r@.len() == i,
            r@[0] == c0,
            forall|j: int| 0 <= j < r@.len() ==> r@[j] < FIELD_P,
        decreases t - i,
    {
        let c = draw_below(rng, FIELD_P);
        r.push(c);
        i = i + 1;
    }
    r
}

/// Overwrites every element with zero before the buffer is dropped.
fn zero_vec(v: &mut Vec<u64>)
    ensures
        final(v)@.len() == old(v)@.len(),
        forall|i: int| 0 <= i < final(v)@.len() ==> final(v)@[i] == 0,
{
    let mut i: usize = 0;
    let n = v.len();
    while i < n
        invariant
            i <= n,
            v@.len() == n,
            forall|j: int| 0 <= j < i ==> v@[j] == 0,
        decreases n - i,
    {
        v.set(i, 0);
        i = i + 1;
    }
}

/// Splits a secret into `n` raw share rows, any `t` of which determine it.
///
/// Each byte of the secret becomes the constant term of a fresh random
/// polynomial of degree `t - 1`; share `i` holds the evaluations of every
/// such polynomial at `x = i + 1`. The coefficients are zeroed before the
/// call returns.
pub fn shard_secret(secret: &[u8], n: u8, t: u8, rng: &mut rand_chacha::ChaCha20Rng) -> (r:
    Result<Vec<Vec<u64>>, ShardError>)
    ensures
        r is Err <==> (t < 2 || n < t || secret@.len() == 0 || secret@.len() > MAX_SECRET_LEN),
        r matches Err(e) ==> e == ShardError::InvalidParameters,
        r matches Ok(v) ==> v@.len() == n && exists|cm: Seq<Seq<u64>>|
            coeffs_for_secret(secret@, t as nat, cm) && rows_are_evaluations(
                cm,
                row_views(v@),
                n as nat,
            ),
{
    if t < 2 || n < t || secret.len() == 0 || secret.len() > MAX_SECRET_LEN {
        return Err(ShardError::InvalidParameters);
    }
    let len = secret.len();
    let mut mat: Vec<Vec<u64>> = Vec::new();
    let mut k: usize = 0;
    while k < len
        invariant
            k <= len,
            len == secret@.len(),
            2 <= t,
            mat@.len() == k,
            forall|kk: int| 0 <= kk < k ==> (#[trigger] mat@[kk])@.len() == t,
            forall|kk: int| 0 <= kk < k ==> (#[trigger] mat@[kk])@[0] == secret@[kk],
            forall|kk: int, j: int|
                0 <= kk < k && 0 <= j < t ==> (#[trigger] mat@[kk]@[j]) < FIELD_P,
        decreases len - k,
    {
        let c = draw_coeffs(secret[k] as u64, t, rng);
        mat.push(c);
        k = k + 1;
    }
    let ghost cm = row_views(mat@);
    proof {
        assert(coeffs_for_secret(secret@, t as nat, cm));
    }
    let mut rows: Vec<Vec<u64>> = Vec::new();
    let mut i: usize = 0;
    while i < n as usize
        invariant
            i <= n,
            mat@.len() == len,
            cm == row_views(mat@),
            forall|kk: int| 0 <= kk < len ==> (#[trigger] mat@[kk])@.len() >= 1,
            forall|kk: int, j: int|
                0 <= kk < len && 0 <= j < mat@[kk]@.len() ==> (#[trigger] mat@[kk]@[j]) < FIELD_P,
            rows@.len() == i,
            forall|ii: int| 0 <= ii < i ==> (#[trigger] rows@[ii])@.len() == len,
            forall|ii: int, kk: int|
                0 <= ii < i && 0 <= kk < len ==> (#[trigger] rows@[ii]@[kk]) == poly_eval(
                    cm[kk],
                    ii + 1,
                ),
        decreases n - i,
    {
        let x: u64 = (i as u64) + 1;
        let mut row: Vec<u64> = Vec::new();
        let mut kk: usize = 0;
        while kk < len
            invariant
                kk <= len,
                x == i + 1,
                x < FIELD_P,
                mat@.len() == len,
                cm == row_views(mat@),
                forall|k2: int, j: int|
                    0 <= k2 < len && 0 <= j < mat@[k2]@.len() ==> (#[trigger] mat@[k2]@[j])
                        < FIELD_P,
                row@.len() == kk,
                forall|k2: int|
                    0 <= k2 < kk ==> (#[trigger] row@[k2]) == poly_eval(cm[k2], x as int),
            decreases len - kk,
        {
            let y = eval_poly(&mat[kk], x);
            row.push(y);
            kk = kk + 1;
        }
        rows.push(row);
        i = i + 1;
    }
    // Discard the polynomial: zero every coefficient buffer before dropping it.
    while mat.len() > 0
        invariant
            true,
        decreases mat@.len(),
    {
        let mut v = mat.pop().unwrap();
        zero_vec(&mut v);
    }
    proof {
        assert(rows_are_evaluations(cm, row_views(rows@), n as nat));
    }
    Ok(rows)
}

/// Product over `j != i` of the evaluation points `x_j`, mod P, taken from
/// position `j` on.
pub open spec fn prod_num_from(pts: Seq<(u8, u64)>, i: int, j: int) -> int
    decreases pts.len() - j,
{
    if j < 0 || j >= pts.len() {
        1
    } else {
        let rest = prod_num_from(pts, i, j + 1);
        if j == i {
            rest
        } else {
            (pts[j].0 * rest) % (FIELD_P as int)
        }
    }
}

/// Product over `j != i` of `(x_j - x_i)` mod P, taken from position `j` on:
/// the Lagrange denominator for point `i`.
pub open spec fn prod_den_from(pts: Seq<(u8, u64)>, i: int, j: int) -> int
    decreases pts.len() - j,
{
    if j < 0 || j >= pts.len() {
        1
    } else {
        let rest = prod_den_from(pts, i, j + 1);
        if j == i {
            rest
        } else {
            (((pts[j].0 - pts[i].0) % (FIELD_P as int)) * rest) % (FIELD_P as int)
        }
    }
}

pub open spec fn lag_value(o: Option<int>) -> int {
    match o {
        Some(x) => x,
        None => 0,
    }
}

/// The Lagrange interpolation sum at x = 0 over points `i` onward: each term
/// is `y_i` times the numerator product times the certified inverse of the
/// denominator product. `None` marks a denominator with no certified
/// inverse (a repeated evaluation point).
pub open spec fn lag_sum(pts: Seq<(u8, u64)>, i: int) -> Option<int>
    decreases pts.len() - i,
{
    if i < 0 || i >= pts.len() {
        Some(0)
    } else {
        let den = prod_den_from(pts, i, 0);
        match inv_checked_spec(den, FIELD_P as int) {
            None => None,
            Some(dinv) => match lag_sum(pts, i + 1) {
                None => None,
                Some(rest) => Some(
                    ((((pts[i].1 * prod_num_from(pts, i, 0)) % (FIELD_P as int)) * dinv) % (
                    FIELD_P as int) + rest) % (FIELD_P as int),
                ),
            },
        }
    }
}

/// The full interpolation at x = 0: the secret byte the points determine.
pub open spec fn lagrange_at_zero(pts: Seq<(u8, u64)>) -> Option<int> {
    lag_sum(pts, 0)
}

/// A failed term poisons every prefix of the sum.
proof fn lemma_lag_none_below(pts: Seq<(u8, u64)>, lo: int, i: int)
    requires
        0 <= lo <= i,
        lag_sum(pts, i) is None,
    ensures
        lag_sum(pts, lo) is None,
    decreases i - lo,
{
    if lo < i {
        lemma_lag_none_below(pts, lo + 1, i);
    }
}

/// Computes the Lagrange numerator product for point `i`.
fn compute_num(pts: &Vec<(u8, u64)>, i: usize) -> (r: u64)
    requires
        i < pts@.len(),
    ensures
        r == prod_num_from(pts@, i as int, 0),
        r < FIELD_P,
{
    let n = pts.len();
    let mut acc: u64 = 1;
    let mut j: usize = n;
    while j > 0
        invariant
            j <= n,
            n == pts@.len(),
            acc < FIELD_P,
            acc == prod_num_from(pts@, i as int, j as int),
        decreases j,
    {
        j = j - 1;
        if j != i {
            let xj = pts[j].0 as u64;
            acc = mul_mod(xj % FIELD_P, acc, FIELD_P);
        }
    }
    acc
}

/// Computes the Lagrange denominator product for point `i`.
fn compute_den(pts: &Vec<(u8, u64)>, i: usize) -> (r: u64)
    requires
        i < pts@.len(),
    ensures
        r == prod_den_from(pts@, i as int, 0),
        r < FIELD_P,
{
    let n = pts.len();
    let xi = pts[i].0 as u64;
    let mut acc: u64 = 1;
    let mut j: usize = n;
    while j > 0
        invariant
            j <= n,
            n == pts@.len(),
            xi == pts@[i as int].0,
            i < n,
            acc < FIELD_P,
            acc == prod_den_from(pts@, i as int, j as int),
        decreases j,
    {
        j = j - 1;
        if j != i {
            let xj = pts[j].0 as u64;
            let d = sub_mod(xj % FIELD_P, xi % FIELD_P, FIELD_P);
            proof {
                assert((pts@[j as int].0 - pts@[i as int].0) % (FIELD_P as int) == d) by {
                    assert(xj < FIELD_P && xi < FIELD_P);
                }
            }
            acc = mul_mod(d, acc, FIELD_P);
        }
    }
    acc
}

/// Interpolates the points' polynomial at x = 0. `None` reports a
/// denominator with no certified inverse, which a set of distinct
/// evaluation points never produces.
pub fn interpolate_at_zero(pts: &Vec<(u8, u64)>) -> (r: Option<u64>)
    requires
        forall|i: int| 0 <= i < pts@.len() ==> (#[trigger] pts@[i]).1 < FIELD_P,
    ensures
        r matches Some(s) ==> lagrange_at_zero(pts@) == Some(s as int) && s < FIELD_P,
        r is None ==> lagrange_at_zero(pts@) is None,
{
    let n = pts.len();
    let mut acc: u64 = 0;
    let mut i: usize = n;
    while i > 0
        invariant
            i <= n,
            n == pts@.len(),
            forall|j: int| 0 <= j < pts@.len() ==> (#[trigger] pts@[j]).1 < FIELD_P,
            acc < FIELD_P,
            lag_sum(pts@, i as int) == Some(acc as int),
        decreases i,
    {
        i = i - 1;
        let num = compute_num(pts, i);
        let den = compute_den(pts, i);
        match inv_mod(den, FIELD_P) {
            None => {
                proof {
                    lemma_lag_none_below(pts@, 0, i as int);
                }
                return None;
            },
            Some(dinv) => {
                let t1 = mul_mod(pts[i].1, num, FIELD_P);
                let t2 = mul_mod(t1, dinv, FIELD_P);
                acc = add_mod(t2, acc, FIELD_P);
            },
        }
    }
    Some(acc)
}

/// The share list as index / value-row pairs over mathematical sequences.
pub open spec fn share_views(s: Seq<(u8, Vec<u64>)>) -> Seq<(u8, Seq<u64>)> {
    Seq::new(s.len(), |i: int| (s[i].0, s[i].1@))
}

/// Two shares carry the same index.
pub open spec fn has_dup(v: Seq<(u8, Seq<u64>)>) -> bool {
    exists|a: int, b: int| 0 <= a < b < v.len() && (#[trigger] v[a]).0 == (#[trigger] v[b]).0
}

/// Indices start at 1 and every row has the common, bounded length.
pub open spec fn shape_ok(v: Seq<(u8, Seq<u64>)>) -> bool {
    &&& v.len() >= 1
    &&& 1 <= v[0].1.len() <= MAX_SECRET_LEN
    &&& forall|i: int| 0 <= i < v.len() ==> (#[trigger] v[i]).0 >= 1
    &&& forall|i: int| 0 <= i < v.len() ==> (#[trigger] v[i]).1.len() == v[0].1.len()
}

/// Every share value is a field residue.
pub open spec fn in_field(v: Seq<(u8, Seq<u64>)>) -> bool {
    forall|i: int, k: int|
        0 <= i < v.len() && 0 <= k < v[i].1.len() ==> (#[trigger] v[i].1[k]) < FIELD_P
}

/// The interpolation points for secret byte `k`, drawn from the `t` shares
/// starting at `start`.
pub open spec fn pts_for(v: Seq<(u8, Seq<u64>)>, start: int, t: nat, k: int) -> Seq<(u8, u64)> {
    Seq::new(t, |i: int| (v[start + i].0, v[start + i].1[k]))
}

/// Every byte of the chosen block interpolates without a failed inverse.
pub open spec fn interp_ok(v: Seq<(u8, Seq<u64>)>, start: int, t: nat) -> bool {
    forall|k: int|
        0 <= k < v[0].1.len() ==> (#[trigger] lagrange_at_zero(pts_for(v, start, t, k))) is Some
}

/// The interpolated values of the chosen block, one per secret byte.
pub open spec fn interp_vals(v: Seq<(u8, Seq<u64>)>, start: int, t: nat) -> Seq<int> {
    Seq::new(v[0].1.len(), |k: int| lag_value(lagrange_at_zero(pts_for(v, start, t, k))))
}

pub open spec fn bytes_ok(vals: Seq<int>) -> bool {
    forall|k: int| 0 <= k < vals.len() ==> 0 <= #[trigger] vals[k] < 256
}

pub open spec fn to_bytes(vals: Seq<int>) -> Seq<u8> {
    Seq::new(vals.len(), |k: int| vals[k] as u8)
}

/// The exact outcome of reconstruction: the checks in the order the
/// implementation makes them, then the interpolated secret of the first
/// `t` shares, cross-checked against the last `t` when spares exist.
pub open spec fn reconstruct_outcome(v: Seq<(u8, Seq<u64>)>, t: nat) -> Result<
    Seq<u8>,
    ShardError,
> {
    if t < 2 {
        Err(ShardError::InvalidParameters)
    } else if v.len() < t {
        Err(ShardError::InsufficientShares)
    } else if has_dup(v) {
        Err(ShardError::DuplicateIndex)
    } else if !shape_ok(v) {
        Err(ShardError::MalformedShare)
    } else if !in_field(v) {
        Err(ShardError::InvalidFieldElement)
    } else if !interp_ok(v, 0, t) {
        Err(ShardError::InvalidFieldElement)
    } else {
        let prim = interp_vals(v, 0, t);
        if v.len() > t {
            let start = v.len() - t;
            if !interp_ok(v, start as int, t) {
                Err(ShardError::InvalidFieldElement)
            } else if interp_vals(v, start as int, t) != prim {
                Err(ShardError::InconsistentShares)
            } else if !bytes_ok(prim) {
                Err(ShardError::InconsistentShares)
            } else {
                Ok(to_bytes(prim))
            }
        } else if !bytes_ok(prim) {
            Err(ShardError::InconsistentShares)
        } else {
            Ok(to_bytes(prim))
        }
    }
}

/// Fewer than `t` shares always fail with `InsufficientShares`.
pub proof fn lemma_insufficient_shares(v: Seq<(u8, Seq<u64>)>, t: nat)
    requires
        t >= 2,
        v.len() < t,
    ensures
        reconstruct_outcome(v, t) == Err::<Seq<u8>, ShardError>(ShardError::InsufficientShares),
{
}

/// A repeated index always fails with `DuplicateIndex`.
pub proof fn lemma_duplicate_index(v: Seq<(u8, Seq<u64>)>, t: nat)
    requires
        t >= 2,
        v.len() >= t,
        has_dup(v),
    ensures
        reconstruct_outcome(v, t) == Err::<Seq<u8>, ShardError>(ShardError::DuplicateIndex),
{
}

/// Gathers the interpolation points for byte `k` from the block at `start`.
#[verifier::loop_isolation(false)]
fn collect_pts(shares: &Vec<(u8, Vec<u64>)>, start: usize, t: usize, k: usize) -> (r: Vec<
    (u8, u64),
>)
    requires
        start + t <= shares@.len(),
        forall|i: int|
            0 <= i < shares@.len() ==> k < (#[trigger] shares@[i]).1@.len(),
    ensures
        r@ == pts_for(share_views(shares@), start as int, t as nat, k as int),
        forall|i: int| 0 <= i < r@.len() ==> (#[trigger] r@[i]).1 == shares@[start + i].1@[k as int],
{
    let n = shares.len();
    let mut r: Vec<(u8, u64)> = Vec::new();
    let mut i: usize = 0;
    while i < t
        invariant
            i <= t,
            start + t <= shares@.len(),
            forall|j: int| 0 <= j < shares@.len() ==> k < (#[trigger] shares@[j]).1@.len(),
            r@.len() == i,
            forall|j: int|
                0 <= j < i ==> #[trigger] r@[j] == (shares@[start + j].0, shares@[start
                    + j].1@[k as int]),
        decreases t - i,
    {
        let idx = shares[start + i].0;
        let y = shares[start + i].1[k];
        r.push((idx, y));
        i = i + 1;
    }
    proof {
        assert(r@ =~= pts_for(share_views(shares@), start as int, t as nat, k as int));
    }
    r
}

/// Interpolates every secret byte from the `t` shares starting at `start`.
#[verifier::loop_isolation(false)]
fn interp_block(shares: &Vec<(u8, Vec<u64>)>, start: usize, t: usize) -> (r: Option<Vec<u64>>)
    requires
        start + t <= shares@.len(),
        shape_ok(share_views(shares@)),
        in_field(share_views(shares@)),
    ensures
        r matches Some(vals) ==> interp_ok(share_views(shares@), start as int, t as nat)
            && vals@.len() == shares@[0].1@.len() && forall|k: int|
            0 <= k < vals@.len() ==> #[trigger] vals@[k] == interp_vals(
                share_views(shares@),
                start as int,
                t as nat,
            )[k] && vals@[k] < FIELD_P,
        r is None ==> !interp_ok(share_views(shares@), start as int, t as nat),
{
    let ghost v = share_views(shares@);
    let len = shares[0].1.len();
    let mut vals: Vec<u64> = Vec::new();
    let mut k: usize = 0;
    while k < len
        invariant
            k <= len,
            len == shares@[0].1@.len(),
            start + t <= shares@.len(),
            v == share_views(shares@),
            shape_ok(v),
            in_field(v),
            vals@.len() == k,
            forall|kk: int|
                0 <= kk < k ==> lagrange_at_zero(
                    #[trigger] pts_for(v, start as int, t as nat, kk),
                ) is Some,
            forall|kk: int|
                0 <= kk < k ==> #[trigger] vals@[kk] == lag_value(
                    lagrange_at_zero(pts_for(v, start as int, t as nat, kk)),
                ) && vals@[kk] < FIELD_P,
        decreases len - k,
    {
        proof {
            assert forall|i: int| 0 <= i < shares@.len() implies k < (#[trigger] shares@[i]).1@.len()
            by {
                assert(v[i] == (shares@[i].0, shares@[i].1@));
                assert(v[i].1.len() == v[0].1.len());
            }
        }
        let pts = collect_pts(shares, start, t, k);
        proof {
            assert forall|i: int| 0 <= i < pts@.len() implies (#[trigger] pts@[i]).1 < FIELD_P by {
                assert(pts@[i].1 == shares@[start + i].1@[k as int]);
                assert(v[start + i] == (shares@[start + i].0, shares@[start + i].1@));
                assert(v[start + i].1[k as int] < FIELD_P);
            }
        }
        match interpolate_at_zero(&pts) {
            None => {
                return None;
            },
            Some(s) => {
                vals.push(s);
            },
        }
        k = k + 1;
    }
    proof {
        assert(forall|kk: int|
            0 <= kk < len ==> #[trigger] vals@[kk] == interp_vals(v, start as int, t as nat)[kk]);
    }
    Some(vals)
}

/// Reconstructs the secret from `shares`, using exactly `t` of them and
/// cross-checking a second block when more are supplied; fails closed on
/// any inconsistency.
#[verifier::loop_isolation(false)]
pub fn reconstruct_secret(shares: &Vec<(u8, Vec<u64>)>, t: u8) -> (r: Result<Vec<u8>, ShardError>)
    ensures
        r matches Ok(b) ==> reconstruct_outcome(share_views(shares@), t as nat) == Ok::<
            Seq<u8>,
            ShardError,
        >(b@),
        r matches Err(e) ==> reconstruct_outcome(share_views(shares@), t as nat) == Err::<
            Seq<u8>,
            ShardError,
        >(e),
{
    let ghost v = share_views(shares@);
    if t < 2 {
        return Err(ShardError::InvalidParameters);
    }
    let n = shares.len();
    if n < t as usize {
        return Err(ShardError::InsufficientShares);
    }
    // Reject repeated indices.
    let mut a: usize = 0;
    while a < n
        invariant
            a <= n,
            n == shares@.len(),
            v == share_views(shares@),
            forall|x: int, y: int| 0 <= x < a && x < y < n ==> v[x].0 != v[y].0,
        decreases n - a,
    {
        let mut b: usize = a + 1;
        while b < n
            invariant
                a < b <= n || (a + 1 == b && b > n),
                a < n,
                n == shares@.len(),
                v == share_views(shares@),
                forall|x: int, y: int| 0 <= x < a && x < y < n ==> v[x].0 != v[y].0,
                forall|y: int| a < y < b ==> v[a as int].0 != v[y].0,
            decreases n - b,
        {
            if shares[a].0 == shares[b].0 {
                proof {
                    assert(v[a as int].0 == v[b as int].0);
                }
                return Err(ShardError::DuplicateIndex);
            }
            b = b + 1;
        }
        a = a + 1;
    }
    proof {
        assert(!has_dup(v));
    }
    // Check the common shape.
    let len = shares[0].1.len();
    if len == 0 || len > MAX_SECRET_LEN {
        proof {
            assert(v[0] == (shares@[0].0, shares@[0].1@));
            assert(!shape_ok(v));
        }
        return Err(ShardError::MalformedShare);
    }
    let mut i: usize = 0;
    while i < n
        invariant
            i <= n,
            n == shares@.len(),
            n >= 1,
            v == share_views(shares@),
            len == v[0].1.len(),
            forall|j: int| 0 <= j < i ==> (#[trigger] v[j]).0 >= 1 && v[j].1.len() == len,
        decreases n - i,
    {
        if shares[i].0 == 0 || shares[i].1.len() != len {
            proof {
                assert(v[i as int] == (shares@[i as int].0, shares@[i as int].1@));
                assert(v[0] == (shares@[0].0, shares@[0].1@));
                assert(!shape_ok(v));
            }
            return Err(ShardError::MalformedShare);
        }
        i = i + 1;
    }
    proof {
        assert(shape_ok(v));
    }
    // Check field membership.
    let mut i2: usize = 0;
    while i2 < n
        invariant
            i2 <= n,
            n == shares@.len(),
            v == share_views(shares@),
            shape_ok(v),
            len == v[0].1.len(),
            forall|j: int, k: int|
                0 <= j < i2 && 0 <= k < v[j].1.len() ==> (#[trigger] v[j].1[k]) < FIELD_P,
        decreases n - i2,
    {
        let row_len = shares[i2].1.len();
        let mut k: usize = 0;
        while k < row_len
            invariant
                k <= row_len,
                i2 < n,
                n == shares@.len(),
                v == share_views(shares@),
                row_len == v[i2 as int].1.len(),
                forall|j: int, kk: int|
                    0 <= j < i2 && 0 <= kk < v[j].1.len() ==> (#[trigger] v[j].1[kk]) < FIELD_P,
                forall|kk: int| 0 <= kk < k ==> (#[trigger] v[i2 as int].1[kk]) < FIELD_P,
            decreases row_len - k,
        {
            if shares[i2].1[k] >= FIELD_P {
                return Err(ShardError::InvalidFieldElement);
            }
            k = k + 1;
        }
        i2 = i2 + 1;
    }
    proof {
        assert(in_field(v));
    }
    // Interpolate the primary block and, when spares exist, a disjoint-start
    // alternate block.
    let prim = match interp_block(shares, 0, t as usize) {
        None => {
            return Err(ShardError::InvalidFieldElement);
        },
        Some(p) => p,
    };
    if n > t as usize {
        let start = n - t as usize;
        let alt = match interp_block(shares, start, t as usize) {
            None => {
                return Err(ShardError::InvalidFieldElement);
            },
            Some(q) => q,
        };
        let mut k: usize = 0;
        let plen = prim.len();
        while k < plen
            invariant
                k <= plen,
                plen == prim@.len(),
                alt@.len() == plen,
                interp_vals(v, 0, t as nat).len() == plen,
                interp_vals(v, start as int, t as nat).len() == plen,
                v == share_views(shares@),
                start == n - t,
                n == shares@.len(),
                forall|kk: int|
                    0 <= kk < plen ==> #[trigger] prim@[kk] == interp_vals(v, 0, t as nat)[kk],
                forall|kk: int|
                    0 <= kk < plen ==> #[trigger] alt@[kk] == interp_vals(
                        v,
                        start as int,
                        t as nat,
                    )[kk],
                forall|kk: int| 0 <= kk < k ==> prim@[kk] == alt@[kk],
            decreases plen - k,
        {
            if prim[k] != alt[k] {
                proof {
                    assert(interp_vals(v, start as int, t as nat)[k as int] != interp_vals(
                        v,
                        0,
                        t as nat,
                    )[k as int]);
                }
                return Err(ShardError::InconsistentShares);
            }
            k = k + 1;
        }
        proof {
            assert forall|kk: int| 0 <= kk < plen implies #[trigger] interp_vals(
                v,
                start as int,
                t as nat,
            )[kk] == interp_vals(v, 0, t as nat)[kk] by {
                assert(prim@[kk] == alt@[kk]);
                assert(prim@[kk] == interp_vals(v, 0, t as nat)[kk]);
                assert(alt@[kk] == interp_vals(v, start as int, t as nat)[kk]);
            }
            assert(interp_vals(v, start as int, t as nat) =~= interp_vals(v, 0, t as nat));
        }
    }
    // The interpolated values must be bytes.
    let mut out: Vec<u8> = Vec::new();
    let mut k2: usize = 0;
    let plen = prim.len();
    while k2 < plen
        invariant
            k2 <= plen,
            plen == prim@.len(),
            v == share_views(shares@),
            forall|kk: int|
                0 <= kk < plen ==> #[trigger] prim@[kk] == interp_vals(v, 0, t as nat)[kk],
            interp_vals(v, 0, t as nat).len() == plen,
            out@.len() == k2,
            forall|kk: int| 0 <= kk < k2 ==> 0 <= #[trigger] interp_vals(v, 0, t as nat)[kk]
                < 256,
            forall|kk: int|
                0 <= kk < k2 ==> #[trigger] out@[kk] == to_bytes(interp_vals(v, 0, t as nat))[kk],
        decreases plen - k2,
    {
        let y = prim[k2];
        if y > 255 {
            return Err(ShardError::InconsistentShares);
        }
        out.push(y as u8);
        k2 = k2 + 1;
    }
    proof {
        assert(bytes_ok(interp_vals(v, 0, t as nat)));
        assert(out@ =~= to_bytes(interp_vals(v, 0, t as nat)));
    }
    Ok(out)
}

/// Any secret that reconstruction returns was interpolated identically by
/// the two threshold-sized subsets it checked: the first `t` shares and
/// the last `t`.
pub proof fn lemma_cross_check_agreement(v: Seq<(u8, Seq<u64>)>, t: nat)
    requires
        reconstruct_outcome(v, t) is Ok,
        v.len() > t,
    ensures
        interp_vals(v, 0, t) == interp_vals(v, (v.len() - t) as int, t),
{
}

} // verus!
