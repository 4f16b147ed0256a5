use vstd::prelude::*;

verus! {

use crate::bytes::{be_bytes_of, be4_bytes_of, u64_from_be, u32_from_be, push_u64_be, push_u32_be,
    read_u64_be, read_u32_be, lemma_be_round_trip, lemma_be4_round_trip};
use crate::errors::ShardError;
use crate::timelock::PuzzleParams;

/// The record format version this codec writes and accepts.
pub const RECORD_VERSION: u8 = 1;

/// One portable share record: the wire form of a locked share.
pub struct ShareRecord {
    /// The share's evaluation point, in `[1, 255]`.
    pub index: u8,
    /// The puzzle whose solution unmasks the locked blob.
    pub puzzle: PuzzleParams,
    /// The masked payload bytes.
    pub locked_blob: Vec<u8>,
}

/// A record the codec will write: bounded blob, 32-byte tag, nonzero index.
pub open spec fn record_wf(rec: ShareRecord) -> bool {
    &&& rec.index >= 1
    &&& rec.locked_blob@.len() <= 0xFFFF
    &&& rec.puzzle.verify_tag@.len() == 32
}

/// The wire layout: version, index, field-value length and bytes (the
/// puzzle seed), modulus length and bytes, difficulty, blob length and
/// bytes, tag length and bytes; all integers big-endian.
pub open spec fn record_bytes(rec: ShareRecord) -> Seq<u8> {
    seq![RECORD_VERSION, rec.index, 0u8, 8u8] + be_bytes_of(rec.puzzle.seed) + seq![0u8, 8u8]
        + be_bytes_of(rec.puzzle.modulus) + be4_bytes_of(rec.puzzle.difficulty) + seq![
        ((rec.locked_blob@.len() as int) / 256) as u8,
        ((rec.locked_blob@.len() as int) % 256) as u8,
    ] + rec.locked_blob@ + seq![32u8] + rec.puzzle.verify_tag@
}

/// The fields read back from a well-formed record encoding; `None` on any
/// structural violation.
pub open spec fn parse_record(b: Seq<u8>) -> Option<(u8, u64, u64, u32, Seq<u8>, Seq<u8>)> {
    if b.len() < 61 {
        None
    } else if b[0] != RECORD_VERSION || b[1] == 0 || b[2] != 0 || b[3] != 8 || b[12] != 0 || b[13]
        != 8 {
        None
    } else {
        let bl = 256 * (b[26] as int) + (b[27] as int);
        if b.len() != 61 + bl {
            None
        } else if b[28 + bl] != 32 {
            None
        } else {
            Some(
                (
                    b[1],
                    u64_from_be(b.subrange(4, 12)) as u64,
                    u64_from_be(b.subrange(14, 22)) as u64,
                    u32_from_be(b.subrange(22, 26)) as u32,
                    b.subrange(28, 28 + bl),
                    b.subrange(29 + bl, 61 + bl),
                ),
            )
        }
    }
}

/// Serializes a share record to its wire bytes.
#[verifier::loop_isolation(false)]
pub fn encode_record(rec: &ShareRecord) -> (r: Vec<u8>)
    requires
        record_wf(*rec),
    ensures
        r@ == record_bytes(*rec),
{
    let mut out: Vec<u8> = Vec::new();
    out.push(RECORD_VERSION);
    out.push(rec.index);
    out.push(0);
    out.push(8);
    push_u64_be(&mut out, rec.puzzle.seed);
    out.push(0);
    out.push(8);
    push_u64_be(&mut out, rec.puzzle.modulus);
    push_u32_be(&mut out, rec.puzzle.difficulty);
    let bl = rec.locked_blob.len();
    out.push(((bl / 256) % 256) as u8);
    out.push((bl % 256) as u8);
    let mut i: usize = 0;
    let ghost mid = out@;
    while i < bl
        invariant
            i <= bl,
            out@ == mid + rec.locked_blob@.subrange(0, i as int),
        decreases bl - i,
    {
        out.push(rec.locked_blob[i]);
        i = i + 1;
        proof {
            assert(out@ =~= mid + rec.locked_blob@.subrange(0, i as int));
        }
    }
    out.push(32);
    let mut j: usize = 0;
    let ghost mid2 = out@;
    while j < rec.puzzle.verify_tag.len()
        invariant
            j <= rec.puzzle.verify_tag@.len(),
            out@ == mid2 + rec.puzzle.verify_tag@.subrange(0, j as int),
        decreases rec.puzzle.verify_tag@.len() - j,
    {
        out.push(rec.puzzle.verify_tag[j]);
        j = j + 1;
        proof {
            assert(out@ =~= mid2 + rec.puzzle.verify_tag@.subrange(0, j as int));
        }
    }
    proof {
        assert(rec.locked_blob@.subrange(0, rec.locked_blob@.len() as int) =~= rec.locked_blob@);
        assert(rec.puzzle.verify_tag@.subrange(0, rec.puzzle.verify_tag@.len() as int)
            =~= rec.puzzle.verify_tag@);
        assert(out@ =~= record_bytes(*rec));
    }
    out
}

/// Deserializes a share record, checking version, lengths and bounds;
/// fails with `MalformedShare` exactly when the bytes do not parse.
#[verifier::loop_isolation(false)]
pub fn decode_record(b: &[u8]) -> (r: Result<ShareRecord, ShardError>)
    ensures
        r matches Ok(rec) ==> parse_record(b@) matches Some(tu) && rec.index == tu.0
            && rec.puzzle.seed == tu.1 && rec.puzzle.modulus == tu.2 && rec.puzzle.difficulty
            == tu.3 && rec.locked_blob@ == tu.4 && rec.puzzle.verify_tag@ == tu.5 && record_wf(
            rec,
        ),
        r matches Err(e) ==> e == ShardError::MalformedShare && parse_record(b@) is None,
{
    let n = b.len();
    if n < 61 {
        return Err(ShardError::MalformedShare);
    }
    if b[0] != RECORD_VERSION || b[1] == 0 || b[2] != 0 || b[3] != 8 || b[12] != 0 || b[13] != 8 {
        return Err(ShardError::MalformedShare);
    }
    let bl: usize = 256 * (b[26] as usize) + (b[27] as usize);
    if n != 61 + bl {
        return Err(ShardError::MalformedShare);
    }
    if b[28 + bl] != 32 {
        return Err(ShardError::MalformedShare);
    }
    let seed = read_u64_be(b, 4);
    let modulus = read_u64_be(b, 14);
    let difficulty = read_u32_be(b, 22);
    let mut blob: Vec<u8> = Vec::new();
    let mut i: usize = 0;
    while i < bl
        invariant
            i <= bl,
            blob@ == b@.subrange(28, 28 + i as int),
        decreases bl - i,
    {
        blob.push(b[28 + i]);
        i = i + 1;
        proof {
            assert(blob@ =~= b@.subrange(28, 28 + i as int));
        }
    }
    let mut tag: Vec<u8> = Vec::new();
    let mut j: usize = 0;
    while j < 32
        invariant
            j <= 32,
            tag@ == b@.subrange(29 + bl as int, 29 + bl + j as int),
        decreases 32 - j,
    {
        tag.push(b[29 + bl + j]);
        j = j + 1;
        proof {
            assert(tag@ =~= b@.subrange(29 + bl as int, 29 + bl + j as int));
        }
    }
    let rec = ShareRecord {
        index: b[1],
        puzzle: PuzzleParams { modulus, seed, difficulty, verify_tag: tag },
        locked_blob: blob,
    };
    Ok(rec)
}

/// Decoding inverts encoding: every well-formed record survives the wire
/// byte for byte.
pub proof fn lemma_record_round_trip(rec: ShareRecord)
    requires
        record_wf(rec),
    ensures
        parse_record(record_bytes(rec)) matches Some(tu) && tu.0 == rec.index && tu.1
            == rec.puzzle.seed && tu.2 == rec.puzzle.modulus && tu.3 == rec.puzzle.difficulty
            && tu.4 == rec.locked_blob@ && tu.5 == rec.puzzle.verify_tag@,
{
    let b = record_bytes(rec);
    let bl = rec.locked_blob@.len() as int;
    assert(b.len() == 61 + bl);
    assert(b[0] == RECORD_VERSION && b[1] == rec.index && b[2] == 0 && b[3] == 8);
    assert(b[12] == 0 && b[13] == 8);
    assert(256 * (b[26] as int) + (b[27] as int) == bl);
    assert(b[28 + bl] == 32);
    assert(b.subrange(4, 12) =~= be_bytes_of(rec.puzzle.seed));
    assert(b.subrange(14, 22) =~= be_bytes_of(rec.puzzle.modulus));
    assert(b.subrange(22, 26) =~= be4_bytes_of(rec.puzzle.difficulty));
    assert(b.subrange(28, 28 + bl) =~= rec.locked_blob@);
    assert(b.subrange(29 + bl, 61 + bl) =~= rec.puzzle.verify_tag@);
    lemma_be_round_trip(rec.puzzle.seed);
    lemma_be_round_trip(rec.puzzle.modulus);
    lemma_be4_round_trip(rec.puzzle.difficulty);
}

} // verus!
