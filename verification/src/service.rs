use vstd::prelude::*;

verus! {

use crate::bytes::{be_bytes_of, push_u64_be, u64_from_be};
use crate::codec::{ShareRecord, record_bytes, record_wf, encode_record, parse_record,
    decode_record};
use crate::detector::{entropy_q10_of, bias_suspicious_of, log2_q10_of, log2_q10, entropy_q10,
    bias_suspicious, validate_share_bytes, Validation, MAX_SAMPLE_LEN};
use crate::errors::ShardError;
use crate::hexstr::{hex_of, is_hex_char, hex_val, hex_encode, hex_decode};
use crate::sharing::{MAX_SECRET_LEN, coeffs_for_secret, rows_are_evaluations, row_views,
    shard_secret, reconstruct_secret, reconstruct_outcome, share_views};
use crate::timelock::{LCS35, PuzzleParams, MAX_DIFFICULTY, locked_ok, unlock_outcome_v};

/// How many fresh polynomials the generator tries before reporting
/// `BackdoorGenerationFailed`.
pub const RETRY_LIMIT: u64 = 5;

/// The entropy floor sits this far (in 1/1024-bit units) below the
/// sample-size ceiling `log2(len)`.
pub const ENTROPY_MARGIN_Q10: u64 = 1536;

/// The statistical sample drawn from one share row: the seven low-order
/// bytes of each evaluation, which a structure-free sharing transform
/// leaves statistically flat.
pub open spec fn sample_of(row: Seq<u64>) -> Seq<u8> {
    Seq::new(row.len() * 7, |i: int| be_bytes_of(row[i / 7])[1 + i % 7])
}

/// The entropy floor for a sample of `len` bytes.
pub open spec fn floor_for(len: nat) -> int {
    if log2_q10_of(len) >= ENTROPY_MARGIN_Q10 {
        log2_q10_of(len) - ENTROPY_MARGIN_Q10
    } else {
        0
    }
}

/// A share row passes the backdoor screen: its sample's entropy reaches
/// the floor and its bit balance is unremarkable.
pub open spec fn row_passes(row: Seq<u64>) -> bool {
    &&& entropy_q10_of(sample_of(row)) >= floor_for(sample_of(row).len())
    &&& !bias_suspicious_of(sample_of(row))
}

/// Extracts the statistical sample from a share row.
#[verifier::loop_isolation(false)]
fn detector_sample(row: &Vec<u64>) -> (r: Vec<u8>)
    requires
        1 <= row@.len() <= MAX_SECRET_LEN,
    ensures
        r@ == sample_of(row@),
        1 <= r@.len() <= MAX_SAMPLE_LEN,
{
    let n = row.len();
    let mut r: Vec<u8> = Vec::new();
    let mut k: usize = 0;
    while k < n
        invariant
            k <= n,
            r@.len() == 7 * k,
            forall|i: int| 0 <= i < 7 * k ==> r@[i] == be_bytes_of(row@[i / 7])[1 + i % 7],
        decreases n - k,
    {
        let v = row[k];
        r.push(((v / 0x1000000000000) % 256) as u8);
        r.push(((v / 0x10000000000) % 256) as u8);
        r.push(((v / 0x100000000) % 256) as u8);
        r.push(((v / 0x1000000) % 256) as u8);
        r.push(((v / 0x10000) % 256) as u8);
        r.push(((v / 0x100) % 256) as u8);
        r.push((v % 256) as u8);
        k = k + 1;
        proof {
            assert forall|i: int| 0 <= i < 7 * k implies r@[i] == be_bytes_of(row@[i / 7])[1 + i
                % 7] by {
                if i >= 7 * (k - 1) {
                    assert(i / 7 == k - 1);
                }
            }
        }
    }
    proof {
        assert(r@ =~= sample_of(row@));
    }
    r
}

/// The payload one puzzle locks for a share: the secret's byte length,
/// then each field evaluation in big-endian form.
pub open spec fn payload_of(row: Seq<u64>, keylen: nat) -> Seq<u8> {
    seq![((keylen as int) / 256) as u8, ((keylen as int) % 256) as u8] + Seq::new(
        row.len() * 8,
        |i: int| be_bytes_of(row[i / 8])[i % 8],
    )
}

/// Builds the lockable payload for one share row.
#[verifier::loop_isolation(false)]
fn build_payload(row: &Vec<u64>, keylen: usize) -> (r: Vec<u8>)
    requires
        row@.len() == keylen,
        1 <= keylen <= MAX_SECRET_LEN,
    ensures
        r@ == payload_of(row@, keylen as nat),
        r@.len() == 2 + 8 * keylen,
{
    let n = row.len();
    let mut r: Vec<u8> = Vec::new();
    r.push(((keylen / 256) % 256) as u8);
    r.push((keylen % 256) as u8);
    let mut k: usize = 0;
    while k < n
        invariant
            k <= n,
            r@.len() == 2 + 8 * k,
            r@[0] == ((keylen as int) / 256) as u8,
            r@[1] == ((keylen as int) % 256) as u8,
            forall|i: int|
                2 <= i < 2 + 8 * k ==> #[trigger] r@[i] == be_bytes_of(row@[(i - 2) / 8])[(i - 2)
                    % 8],
        decreases n - k,
    {
        push_u64_be(&mut r, row[k]);
        k = k + 1;
        proof {
            assert forall|i: int|
                2 <= i < 2 + 8 * k implies #[trigger] r@[i] == be_bytes_of(row@[(i - 2) / 8])[(i
                - 2) % 8] by {
                if i - 2 >= 8 * (k - 1) {
                    assert((i - 2) / 8 == k - 1);
                }
            }
        }
    }
    proof {
        assert(r@ =~= payload_of(row@, keylen as nat));
    }
    r
}

/// One finished output string: the hex encoding of a well-formed record
/// whose puzzle locked exactly this row's payload.
pub open spec fn output_matches(
    s: Seq<char>,
    row: Seq<u64>,
    keylen: nat,
    i: int,
    d: u32,
) -> bool {
    exists|rec: ShareRecord|
        #[trigger] record_wf(rec) && s == hex_of(record_bytes(rec)) && rec.index == i + 1
            && rec.puzzle.difficulty == d && locked_ok(
            rec.puzzle,
            rec.locked_blob@,
            payload_of(row, keylen),
        )
}

/// The full guarantee of a successful `shard_key`: some coefficient
/// matrix carries the secret, the rows are its evaluations, every row
/// passed the backdoor screen, and each output string encodes a record
/// locking that row.
pub open spec fn shard_key_ok(
    key: Seq<u8>,
    t: nat,
    n: nat,
    d: u32,
    outs: Seq<Seq<char>>,
) -> bool {
    exists|cm: Seq<Seq<u64>>, rows: Seq<Seq<u64>>|
        #[trigger] coeffs_for_secret(key, t, cm) && #[trigger] rows_are_evaluations(cm, rows, n)
            && (forall|i: int| 0 <= i < n ==> row_passes(#[trigger] rows[i])) && (forall|i: int|
            0 <= i < n ==> output_matches(outs[i], #[trigger] rows[i], key.len(), i, d))
}

pub open spec fn string_views(v: Seq<String>) -> Seq<Seq<char>> {
    Seq::new(v.len(), |i: int| v[i]@)
}

/// Splits keys into time-locked shares and reconstructs them.
pub struct TimelockKeySharding {
    /// The puzzle difficulty every produced share carries.
    pub difficulty: u32,
    /// How many shares reconstruction requires.
    pub threshold: usize,
}

impl TimelockKeySharding {
    /// The parameter set under which sharding can proceed.
    pub open spec fn params_ok(&self, keylen: nat, n: nat) -> bool {
        &&& 2 <= self.threshold <= 255
        &&& self.threshold <= n
        &&& self.difficulty <= MAX_DIFFICULTY
        &&& 1 <= keylen <= MAX_SECRET_LEN
    }

    /// Builds a service configuration.
    pub fn new(difficulty: u32, threshold: usize) -> (r: TimelockKeySharding)
        ensures
            r.difficulty == difficulty,
            r.threshold == threshold,
    {
        TimelockKeySharding { difficulty, threshold }
    }

    /// Splits `key` into `num_shards` hex share records: shares the key
    /// over the field, screens every raw share row statistically
    /// (regenerating the polynomials up to `RETRY_LIMIT` times), locks
    /// each accepted row behind a fresh puzzle, and encodes the records.
    pub fn shard_key(&self, key: &[u8], num_shards: u8, rng: &mut rand_chacha::ChaCha20Rng) -> (r:
        Result<Vec<String>, ShardError>)
        ensures
            !self.params_ok(key@.len(), num_shards as nat) <==> (r matches Err(e) && e
                == ShardError::InvalidParameters),
            r matches Err(e) ==> (e == ShardError::InvalidParameters || e
                == ShardError::BackdoorGenerationFailed),
            r matches Ok(v) ==> v@.len() == num_shards && shard_key_ok(
                key@,
                self.threshold as nat,
                num_shards as nat,
                self.difficulty,
                string_views(v@),
            ),
    {
        if self.threshold < 2 || self.threshold > 255 || (num_shards as usize) < self.threshold
            || self.difficulty > MAX_DIFFICULTY || key.len() == 0 || key.len() > MAX_SECRET_LEN {
            return Err(ShardError::InvalidParameters);
        }
        let t = self.threshold as u8;
        let rows = match generate_screened_rows(key, num_shards, t, rng) {
            Ok(rows) => rows,
            Err(e) => {
                return Err(e);
            },
        };
        let out = lock_and_encode(key.len(), &rows, self.difficulty, rng);
        proof {
            assert(shard_key_ok(
                key@,
                self.threshold as nat,
                num_shards as nat,
                self.difficulty,
                string_views(out@),
            ));
        }
        Ok(out)
    }
}
/// Draws share rows and screens them, regenerating the polynomials on any
/// rejection, up to `RETRY_LIMIT` attempts.
#[verifier::loop_isolation(false)]
fn generate_screened_rows(key: &[u8], n: u8, t: u8, rng: &mut rand_chacha::ChaCha20Rng) -> (r:
    Result<Vec<Vec<u64>>, ShardError>)
    requires
        2 <= t,
        t <= n,
        1 <= key@.len() <= MAX_SECRET_LEN,
    ensures
        r matches Err(e) ==> e == ShardError::BackdoorGenerationFailed,
        r matches Ok(rows) ==> rows@.len() == n && (forall|j: int|
            0 <= j < rows@.len() ==> (#[trigger] rows@[j])@.len() == key@.len()) && (exists|
            cm: Seq<Seq<u64>>,
        |
            coeffs_for_secret(key@, t as nat, cm) && rows_are_evaluations(
                cm,
                row_views(rows@),
                n as nat,
            )) && (forall|i: int| 0 <= i < n ==> row_passes(#[trigger] row_views(rows@)[i])),
{
    let slen: u64 = 7 * (key.len() as u64);
    let l2s = log2_q10(slen);
    let floor: u64 = if l2s >= ENTROPY_MARGIN_Q10 {
        l2s - ENTROPY_MARGIN_Q10
    } else {
        0
    };
    proof {
        assert(floor == floor_for((7 * key@.len()) as nat));
    }
    let mut attempt: u64 = 0;
    while attempt < RETRY_LIMIT
        invariant
            2 <= t <= n,
            1 <= key@.len() <= MAX_SECRET_LEN,
            floor == floor_for((7 * key@.len()) as nat),
        decreases RETRY_LIMIT - attempt,
    {
        let rows = match shard_secret(key, n, t, rng) {
            Ok(rows) => rows,
            Err(_) => {
                proof {
                    assert(false);
                }
                return Err(ShardError::BackdoorGenerationFailed);
            },
        };
        proof {
            let cm = choose|cm: Seq<Seq<u64>>|
                coeffs_for_secret(key@, t as nat, cm) && rows_are_evaluations(
                    cm,
                    row_views(rows@),
                    n as nat,
                );
            assert(coeffs_for_secret(key@, t as nat, cm) && rows_are_evaluations(
                cm,
                row_views(rows@),
                n as nat,
            ));
            assert forall|j: int| 0 <= j < rows@.len() implies (#[trigger] rows@[j])@.len()
                == key@.len() by {
                assert(row_views(rows@)[j].len() == cm.len());
                assert(row_views(rows@)[j] == rows@[j]@);
            }
        }
        let mut all_pass = true;
        let mut i: usize = 0;
        while i < rows.len() && all_pass
            invariant
                i <= rows@.len(),
                rows@.len() == n,
                forall|j: int| 0 <= j < rows@.len() ==> (#[trigger] rows@[j])@.len() == key@.len(),
                all_pass ==> forall|j: int|
                    0 <= j < i ==> row_passes(#[trigger] row_views(rows@)[j]),
            decreases rows@.len() - i,
        {
            let sample = detector_sample(&rows[i]);
            let verdict = validate_share_bytes(sample.as_slice(), floor);
            match verdict {
                Validation::Accept => {
                    proof {
                        assert(sample@.len() == 7 * key@.len());
                        assert(row_passes(row_views(rows@)[i as int]));
                    }
                },
                _ => {
                    all_pass = false;
                },
            }
            i = i + 1;
        }
        if all_pass {
            return Ok(rows);
        }
        attempt = attempt + 1;
    }
    Err(ShardError::BackdoorGenerationFailed)
}

/// Locks one row's payload behind a fresh puzzle and hex-encodes its
/// record.
#[verifier::rlimit(100)]
fn lock_one(
    puzzle: &LCS35,
    row: &Vec<u64>,
    keylen: usize,
    index: u8,
    rng: &mut rand_chacha::ChaCha20Rng,
) -> (s: String)
    requires
        puzzle.wf(),
        row@.len() == keylen,
        1 <= keylen <= MAX_SECRET_LEN,
        index >= 1,
    ensures
        output_matches(s@, row@, keylen as nat, index - 1, puzzle.spec_difficulty()),
{
    let payload = build_payload(row, keylen);
    let (params, blob) = puzzle.lock(payload.as_slice(), rng);
    let rec = ShareRecord { index, puzzle: params, locked_blob: blob };
    proof {
        assert(record_wf(rec));
    }
    let bytes = encode_record(&rec);
    let s = hex_encode(bytes.as_slice());
    proof {
        assert(s@ == hex_of(record_bytes(rec)));
        let (pi, qi) = choose|pi: int, qi: int|
            0 <= pi < 8 && 0 <= qi < 8 && pi != qi && params.modulus == crate::timelock::table_prime(
                pi,
            ) * crate::timelock::table_prime(qi) && #[trigger] crate::timelock::lock_rel(
                params,
                blob@,
                payload@,
                (crate::timelock::table_prime(pi) - 1) * (crate::timelock::table_prime(qi) - 1),
            );
        assert(crate::timelock::lock_rel(
            rec.puzzle,
            rec.locked_blob@,
            payload_of(row@, keylen as nat),
            (crate::timelock::table_prime(pi) - 1) * (crate::timelock::table_prime(qi) - 1),
        ));
        assert(locked_ok(rec.puzzle, rec.locked_blob@, payload_of(row@, keylen as nat)));
        assert(output_matches(s@, row@, keylen as nat, index - 1, puzzle.spec_difficulty()));
    }
    s
}

/// Locks every screened row behind a fresh puzzle and hex-encodes the
/// records, share `i` carrying index `i + 1`.
#[verifier::rlimit(100)]
fn lock_and_encode(
    keylen: usize,
    rows: &Vec<Vec<u64>>,
    difficulty: u32,
    rng: &mut rand_chacha::ChaCha20Rng,
) -> (r: Vec<String>)
    requires
        1 <= keylen <= MAX_SECRET_LEN,
        difficulty <= MAX_DIFFICULTY,
        rows@.len() <= 255,
        forall|j: int| 0 <= j < rows@.len() ==> (#[trigger] rows@[j])@.len() == keylen,
    ensures
        r@.len() == rows@.len(),
        forall|j: int|
            0 <= j < rows@.len() ==> output_matches(
                #[trigger] string_views(r@)[j],
                row_views(rows@)[j],
                keylen as nat,
                j,
                difficulty,
            ),
{
    let puzzle = LCS35::new(difficulty);
    let n = rows.len();
    let mut out: Vec<String> = Vec::new();
    let mut i: usize = 0;
    while i < n
        invariant
            i <= n,
            n == rows@.len(),
            1 <= keylen <= MAX_SECRET_LEN,
            rows@.len() <= 255,
            forall|j: int| 0 <= j < rows@.len() ==> (#[trigger] rows@[j])@.len() == keylen,
            puzzle.wf(),
            puzzle.spec_difficulty() == difficulty,
            out@.len() == i,
            forall|j: int|
                0 <= j < i ==> output_matches(
                    (#[trigger] out@[j])@,
                    rows@[j]@,
                    keylen as nat,
                    j,
                    difficulty,
                ),
        decreases n - i,
    {
        let s = lock_one(&puzzle, &rows[i], keylen, (i as u8) + 1, rng);
        out.push(s);
        i = i + 1;
    }
    proof {
        assert forall|j: int|
            0 <= j < rows@.len() implies output_matches(
            #[trigger] string_views(out@)[j],
            row_views(rows@)[j],
            keylen as nat,
            j,
            difficulty,
        ) by {
            assert(string_views(out@)[j] == out@[j]@);
            assert(row_views(rows@)[j] == rows@[j]@);
        }
    }
    out
}

/// A string of hex digits of even length.
pub open spec fn hex_ok(s: Seq<char>) -> bool {
    s.len() % 2 == 0 && forall|i: int| 0 <= i < s.len() ==> is_hex_char(#[trigger] s[i])
}

/// The bytes a hex string decodes to.
pub open spec fn hex_bytes(s: Seq<char>) -> Seq<u8> {
    Seq::new((s.len() / 2) as nat, |i: int| (16 * hex_val(s[2 * i]) + hex_val(s[2 * i + 1])) as u8)
}

/// Everything decoding one share string yields: hex to bytes, bytes to a
/// record, the record's puzzle solved and checked, and the payload parsed
/// into the share's index and field evaluations. The first failure's
/// error is the result.
pub open spec fn decode_chain(s: Seq<char>, d: u32) -> Result<(u8, Seq<u64>), ShardError> {
    if !hex_ok(s) {
        Err(ShardError::MalformedShare)
    } else {
        match parse_record(hex_bytes(s)) {
            None => Err(ShardError::MalformedShare),
            Some(tu) => match unlock_outcome_v(d, tu.2, tu.1, tu.3, tu.5, tu.4) {
                Err(e) => Err(e),
                Ok(payload) => {
                    if payload.len() < 2 {
                        Err(ShardError::MalformedShare)
                    } else {
                        let keylen = 256 * (payload[0] as int) + (payload[1] as int);
                        if payload.len() != 2 + 8 * keylen {
                            Err(ShardError::MalformedShare)
                        } else {
                            Ok(
                                (
                                    tu.0,
                                    Seq::new(
                                        keylen as nat,
                                        |k: int| u64_from_be(
                                            payload.subrange(2 + 8 * k, 10 + 8 * k),
                                        ) as u64,
                                    ),
                                ),
                            )
                        }
                    }
                },
            },
        }
    }
}

/// Decodes every share string from position `i` on, stopping at the first
/// failure.
pub open spec fn decode_all(shards: Seq<Seq<char>>, d: u32, i: int) -> Result<
    Seq<(u8, Seq<u64>)>,
    ShardError,
> 
    decreases shards.len() - i,
{
    if i < 0 || i >= shards.len() {
        Ok(Seq::empty())
    } else {
        match decode_chain(shards[i], d) {
            Err(e) => Err(e),
            Ok(sh) => match decode_all(shards, d, i + 1) {
                Err(e) => Err(e),
                Ok(rest) => Ok(seq![sh] + rest),
            },
        }
    }
}

/// The exact outcome of `reconstruct_key`: parameter checks, then the
/// decode chain over every share, then field reconstruction with its
/// cross-check.
pub open spec fn reconstruct_key_outcome(shards: Seq<Seq<char>>, t: int, d: u32) -> Result<
    Seq<u8>,
    ShardError,
> {
    if t < 2 || t > 255 || d > MAX_DIFFICULTY {
        Err(ShardError::InvalidParameters)
    } else {
        match decode_all(shards, d, 0) {
            Err(e) => Err(e),
            Ok(shs) => reconstruct_outcome(shs, t as nat),
        }
    }
}

/// When every share from `i` on decodes, the chain returns them all.
#[verifier::rlimit(100)]
proof fn lemma_decode_all_ok(
    shards: Seq<Seq<char>>,
    d: u32,
    built: Seq<(u8, Seq<u64>)>,
    i: int,
)
    requires
        0 <= i <= shards.len(),
        built.len() == shards.len(),
        forall|j: int|
            i <= j < shards.len() ==> decode_chain(#[trigger] shards[j], d) == Ok::<
                (u8, Seq<u64>),
                ShardError,
            >(built[j]),
    ensures
        decode_all(shards, d, i) == Ok::<Seq<(u8, Seq<u64>)>, ShardError>(
            built.subrange(i, built.len() as int),
        ),
    decreases shards.len() - i,
{
    if i >= shards.len() {
        assert(built.subrange(i, built.len() as int) =~= Seq::<(u8, Seq<u64>)>::empty());
    } else {
        lemma_decode_all_ok(shards, d, built, i + 1);
        assert(built.subrange(i, built.len() as int) =~= seq![built[i]] + built.subrange(
            i + 1,
            built.len() as int,
        ));
    }
}

/// The first failing share's error is the chain's result.
#[verifier::rlimit(100)]
proof fn lemma_decode_all_err(shards: Seq<Seq<char>>, d: u32, i: int, e: ShardError, start: int)
    requires
        0 <= start <= i < shards.len(),
        forall|j: int| start <= j < i ==> decode_chain(#[trigger] shards[j], d) is Ok,
        decode_chain(shards[i], d) == Err::<(u8, Seq<u64>), ShardError>(e),
    ensures
        decode_all(shards, d, start) == Err::<Seq<(u8, Seq<u64>)>, ShardError>(e),
    decreases i - start,
{
    if start < i {
        lemma_decode_all_err(shards, d, i, e, start + 1);
    }
}

/// Reads the field evaluations out of an unlocked payload.
#[verifier::loop_isolation(false)]
fn parse_payload(payload: &Vec<u8>) -> (r: Option<(usize, Vec<u64>)>)
    ensures
        r matches Some(p) ==> payload@.len() >= 2 && p.0 == 256 * (payload@[0] as int) + (
        payload@[1] as int) && payload@.len() == 2 + 8 * p.0 && p.1@ == Seq::new(
            p.0 as nat,
            |k: int| u64_from_be(payload@.subrange(2 + 8 * k, 10 + 8 * k)) as u64,
        ),
        r is None ==> (payload@.len() < 2 || payload@.len() != 2 + 8 * (256 * (
        payload@[0] as int) + (payload@[1] as int))),
{
    if payload.len() < 2 {
        return None;
    }
    let keylen: usize = 256 * (payload[0] as usize) + (payload[1] as usize);
    if payload.len() != 2 + 8 * keylen {
        return None;
    }
    let mut evals: Vec<u64> = Vec::new();
    let mut k: usize = 0;
    while k < keylen
        invariant
            k <= keylen,
            evals@.len() == k,
            forall|j: int|
                0 <= j < k ==> #[trigger] evals@[j] == u64_from_be(
                    payload@.subrange(2 + 8 * j, 10 + 8 * j),
                ) as u64,
        decreases keylen - k,
    {
        let v = crate::bytes::read_u64_be(payload.as_slice(), 2 + 8 * k);
        evals.push(v);
        k = k + 1;
    }
    proof {
        assert(evals@ =~= Seq::new(
            keylen as nat,
            |j: int| u64_from_be(payload@.subrange(2 + 8 * j, 10 + 8 * j)) as u64,
        ));
    }
    Some((keylen, evals))
}

/// A record string passes the entropy gate: it decodes to a bounded byte
/// buffer whose entropy reaches the adaptive floor and whose bit balance
/// is unremarkable.
pub open spec fn record_gate(s: Seq<char>) -> bool {
    &&& hex_ok(s)
    &&& 1 <= hex_bytes(s).len() <= MAX_SAMPLE_LEN
    &&& entropy_q10_of(hex_bytes(s)) >= floor_for(hex_bytes(s).len() as nat)
    &&& !bias_suspicious_of(hex_bytes(s))
}

impl TimelockKeySharding {
    /// Recovers the key from hex share records: decodes each record,
    /// solves each puzzle by full sequential squaring, checks every
    /// verification tag, reconstructs the secret from the threshold many
    /// shares and cross-checks a second subset when spares exist. Fails
    /// closed on any sub-step failure.
    #[verifier::loop_isolation(false)]
    #[verifier::rlimit(100)]
    pub fn reconstruct_key(&self, shards: &[String]) -> (r: Result<Vec<u8>, ShardError>)
        ensures
            r matches Ok(b) ==> reconstruct_key_outcome(
                string_views(shards@),
                self.threshold as int,
                self.difficulty,
            ) == Ok::<Seq<u8>, ShardError>(b@),
            r matches Err(e) ==> reconstruct_key_outcome(
                string_views(shards@),
                self.threshold as int,
                self.difficulty,
            ) == Err::<Seq<u8>, ShardError>(e),
    {
        let ghost sv = string_views(shards@);
        if self.threshold < 2 || self.threshold > 255 || self.difficulty > MAX_DIFFICULTY {
            return Err(ShardError::InvalidParameters);
        }
        let puzzle = LCS35::new(self.difficulty);
        let n = shards.len();
        let mut decoded: Vec<(u8, Vec<u64>)> = Vec::new();
        let mut i: usize = 0;
        while i < n
            invariant
                i <= n,
                decoded@.len() == i,
                forall|j: int|
                    0 <= j < i ==> (decode_chain(#[trigger] sv[j], self.difficulty) matches Ok(sh)
                        && sh.0 == decoded@[j].0 && sh.1 == decoded@[j].1@),
            decreases n - i,
        {
            proof {
                assert(sv[i as int] == shards@[i as int]@);
            }
            match decode_one(&puzzle, &shards[i]) {
                Err(e) => {
                    proof {
                        lemma_decode_all_err(sv, self.difficulty, i as int, e, 0);
                    }
                    return Err(e);
                },
                Ok(p) => {
                    decoded.push(p);
                },
            }
            i = i + 1;
        }
        proof {
            let built = share_views(decoded@);
            assert(built.len() == sv.len());
            assert forall|j: int|
                0 <= j < sv.len() implies decode_chain(#[trigger] sv[j], self.difficulty) == Ok::<
                (u8, Seq<u64>),
                ShardError,
            >(built[j]) by {
                assert(built[j] == (decoded@[j].0, decoded@[j].1@));
            }
            lemma_decode_all_ok(sv, self.difficulty, built, 0);
            assert(built.subrange(0, built.len() as int) =~= built);
        }
        let t = self.threshold as u8;
        let res = reconstruct_secret(&decoded, t);
        res
    }

    /// Per-byte Shannon entropy of a buffer, in 1/1024-bit units:
    /// 0 for constant data, close to `8 * 1024` for uniformly random data
    /// of a few hundred bytes or more.
    pub fn calculate_entropy(&self, data: &[u8]) -> (r: u64)
        requires
            1 <= data@.len() <= MAX_SAMPLE_LEN,
        ensures
            r == entropy_q10_of(data@),
    {
        entropy_q10(data)
    }

    /// Flags a buffer whose bit balance is statistically implausible under
    /// fair-coin randomness, in either direction: too skewed, or too
    /// perfectly balanced.
    pub fn check_borel_regularity(&self, data: &[u8]) -> (r: bool)
        requires
            1 <= data@.len() <= MAX_SAMPLE_LEN,
        ensures
            r == bias_suspicious_of(data@),
    {
        bias_suspicious(data)
    }

    /// Screens a set of hex share records: every record must decode and
    /// show both enough entropy for its size and an unremarkable bit
    /// balance. Any malformed or statistically suspicious record fails
    /// the whole set.
    #[verifier::loop_isolation(false)]
    pub fn check_shard_entropy(&self, shards: &[String]) -> (r: bool)
        ensures
            r == forall|i: int| 0 <= i < shards@.len() ==> record_gate(#[trigger] shards@[i]@),
    {
        let n = shards.len();
        let mut i: usize = 0;
        while i < n
            invariant
                i <= n,
                forall|j: int| 0 <= j < i ==> record_gate(#[trigger] shards@[j]@),
            decreases n - i,
        {
            let bytes = match hex_decode(shards[i].as_str()) {
                None => {
                    return false;
                },
                Some(b) => b,
            };
            proof {
                assert(bytes@ =~= hex_bytes(shards@[i as int]@));
            }
            if bytes.len() == 0 || bytes.len() > MAX_SAMPLE_LEN {
                return false;
            }
            let l2 = log2_q10(bytes.len() as u64);
            let floor: u64 = if l2 >= ENTROPY_MARGIN_Q10 {
                l2 - ENTROPY_MARGIN_Q10
            } else {
                0
            };
            proof {
                assert(floor == floor_for(bytes@.len() as nat));
            }
            match validate_share_bytes(bytes.as_slice(), floor) {
                Validation::Accept => {
                    proof {
                        assert(record_gate(shards@[i as int]@));
                    }
                },
                _ => {
                    return false;
                },
            }
            i = i + 1;
        }
        true
    }
}

/// Decodes one hex share record and solves its puzzle, yielding the
/// share's index and field evaluations; the first failing step's error is
/// the result.
#[verifier::rlimit(100)]
fn decode_one(puzzle: &LCS35, s: &String) -> (r: Result<(u8, Vec<u64>), ShardError>)
    requires
        puzzle.wf(),
    ensures
        r matches Ok(p) ==> (decode_chain(s@, puzzle.spec_difficulty()) matches Ok(sh) && sh.0
            == p.0 && sh.1 == p.1@),
        r matches Err(e) ==> decode_chain(s@, puzzle.spec_difficulty()) == Err::<
            (u8, Seq<u64>),
            ShardError,
        >(e),
{
    let bytes = match hex_decode(s.as_str()) {
        None => {
            return Err(ShardError::MalformedShare);
        },
        Some(b) => b,
    };
    proof {
        assert(bytes@ =~= hex_bytes(s@));
    }
    let rec = match decode_record(bytes.as_slice()) {
        Err(e) => {
            return Err(e);
        },
        Ok(rec) => rec,
    };
    let payload = match puzzle.unlock(&rec.puzzle, rec.locked_blob.as_slice()) {
        Err(e) => {
            return Err(e);
        },
        Ok(p) => p.0,
    };
    let (_, evals) = match parse_payload(&payload) {
        None => {
            return Err(ShardError::MalformedShare);
        },
        Some(p) => p,
    };
    proof {
        assert(decode_chain(s@, puzzle.spec_difficulty()) matches Ok(sh) && sh.0 == rec.index
            && sh.1 == evals@) by {
            assert(parse_record(hex_bytes(s@)) is Some);
        }
    }
    Ok((rec.index, evals))
}

} // verus!
